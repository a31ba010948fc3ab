//! Templates with positional `{N}` placeholders: parsing and rendering.

use indexmap::IndexMap;
use std::collections::HashSet;
use vstd::prelude::*;
use vstd::std_specs::iter::IteratorSpec;

verus! {

#[verifier::external_type_specification]
#[verifier::external_body]
#[verifier::reject_recursive_types(K)]
#[verifier::reject_recursive_types(V)]
#[verifier::reject_recursive_types(S)]
pub struct ExIndexMap<K, V, S>(IndexMap<K, V, S>);

/// The placeholders of a template: source span `(start, end)` of each `{N}`
/// (`start` on the `{`, `end` on the `}`) mapped to its index `N`.
pub type Placeholders = IndexMap<(usize, usize), usize>;

/// The entries of a placeholder map, in the map's order.
pub uninterp spec fn placeholder_entries(m: IndexMap<(usize, usize), usize>) -> Seq<((usize, usize), usize)>;

pub open spec fn has_span(e: Seq<((usize, usize), usize)>, span: (usize, usize)) -> bool {
    exists|i: int| 0 <= i < e.len() && #[trigger] e[i].0 == span
}

/// Relies on IndexMap::new: a new map holds no entries.
#[verifier::external_body]
fn new_placeholders() -> (m: Placeholders)
    ensures
        placeholder_entries(m) == Seq::<((usize, usize), usize)>::empty(),
{
    IndexMap::new()
}

/// Relies on IndexMap::insert: an existing key keeps its place and takes the new
/// value; a new key goes last in order.
#[verifier::external_body]
fn insert_placeholder(m: &mut Placeholders, span: (usize, usize), index: usize) -> (r: Option<usize>)
    ensures
        has_span(placeholder_entries(*old(m)), span) ==> exists|i: int|
            0 <= i < placeholder_entries(*old(m)).len()
                && #[trigger] placeholder_entries(*old(m))[i].0 == span
                && placeholder_entries(*final(m)) == placeholder_entries(*old(m)).update(i, (span, index))
                && r == Some(placeholder_entries(*old(m))[i].1),
        !has_span(placeholder_entries(*old(m)), span) ==> placeholder_entries(*final(m))
            == placeholder_entries(*old(m)).push((span, index)) && r is None,
{
    m.insert(span, index)
}

/// Relies on IndexMap::len: the number of entries.
#[verifier::external_body]
fn placeholder_count(m: &Placeholders) -> (r: usize)
    ensures
        r == placeholder_entries(*m).len(),
{
    m.len()
}

/// Relies on IndexMap::get_index: the entry at a position of the order.
#[verifier::external_body]
fn placeholder_at(m: &Placeholders, i: usize) -> (r: Option<((usize, usize), usize)>)
    ensures
        i < placeholder_entries(*m).len() ==> r == Some(placeholder_entries(*m)[i as int]),
        i >= placeholder_entries(*m).len() ==> r is None,
{
    m.get_index(i).map(|(k, v)| (*k, *v))
}

/// The characters of `s`, in order.
pub(crate) fn chars_of(s: &str) -> (r: Vec<char>)
    ensures
        r@ == s@,
{
    broadcast use vstd::string::axiom_spec_iter, vstd::string::next_postcondition;
    let mut it = s.chars();
    let mut r: Vec<char> = Vec::new();
    loop
        invariant
            r@ + it.remaining() == s@,
            it.obeys_prophetic_iter_laws(),
            it.decrease() is Some,
        ensures
            r@ == s@,
        decreases it.decrease()->0,
    {
        match it.next() {
            Some(c) => r.push(c),
            None => {
                assert(r@ + it.remaining() =~= r@);
                break;
            },
        }
    }
    r
}


/// Relies on String::push: the character is appended at the end.
pub assume_specification[ String::push ](s: &mut String, ch: char)
    ensures
        final(s)@ == old(s)@.push(ch),
;

/// Relies on String::push_str: the slice is appended at the end.
pub assume_specification[ String::push_str ](s: &mut String, string: &str)
    ensures
        final(s)@ == old(s)@ + string@,
;

/// One placeholder: its span `(start, end)` and its index.
pub type Entry = ((usize, usize), usize);

/// Why a template could not be parsed.
#[derive(Debug, Clone, Copy, PartialEq, Eq, Structural)]
pub enum ParseError {
    /// A `{` with no `}` before the next `{` or the end of the text.
    UnmatchedBrace,
    /// The placeholder indices leave out this one, the smallest missing.
    MissingParameter(usize),
}

/// Why a template could not be rendered.
#[derive(Debug, Clone, Copy, PartialEq, Eq, Structural)]
pub enum RenderError {
    /// The number of substitutions differs from the template's parameter count.
    ParameterCountMismatch { expected: usize, actual: usize },
}

pub open spec fn is_digit(c: char) -> bool {
    '0' <= c && c <= '9'
}

pub open spec fn all_digits(t: Seq<char>) -> bool {
    forall|i: int| 0 <= i < t.len() ==> is_digit(#[trigger] t[i])
}

/// The number that a sequence of decimal digits writes.
pub open spec fn digits_value(t: Seq<char>) -> nat
    decreases t.len(),
{
    if t.len() == 0 {
        0
    } else {
        digits_value(t.drop_last()) * 10 + ((t.last() as u32) - ('0' as u32)) as nat
    }
}

/// The digits of `t` once an optional leading `+` is removed.
pub open spec fn unsigned_digits(t: Seq<char>) -> Seq<char> {
    if t.len() > 0 && t[0] == '+' {
        t.drop_first()
    } else {
        t
    }
}

/// What `t` reads as when taken as a placeholder index: an optional `+` and at
/// least one decimal digit, of a value that fits in `usize`.
pub open spec fn index_value(t: Seq<char>) -> Option<usize> {
    let d = unsigned_digits(t);
    if d.len() > 0 && all_digits(d) && digits_value(d) <= usize::MAX {
        Some(digits_value(d) as usize)
    } else {
        None
    }
}

/// The placeholders of `s` from position `pos` on, where `open` is the position
/// of a `{` not yet closed; `None` where a `{` is left unmatched.
pub open spec fn scan(s: Seq<char>, pos: int, open: Option<int>) -> Option<Seq<Entry>>
    decreases s.len() - pos,
{
    if pos >= s.len() || pos < 0 {
        if open is Some {
            None
        } else {
            Some(Seq::empty())
        }
    } else {
        match open {
            None => {
                if s[pos] == '{' {
                    scan(s, pos + 1, Some(pos))
                } else {
                    scan(s, pos + 1, None)
                }
            },
            Some(i) => {
                if s[pos] == '{' {
                    None
                } else if s[pos] == '}' {
                    match scan(s, pos + 1, None) {
                        None => None,
                        Some(rest) => match index_value(s.subrange(i + 1, pos)) {
                            Some(n) => Some(seq![((i as usize, pos as usize), n)] + rest),
                            None => Some(rest),
                        },
                    }
                } else {
                    scan(s, pos + 1, Some(i))
                }
            },
        }
    }
}

/// The placeholders of a whole text, or `None` where a `{` is unmatched.
pub open spec fn placeholders_of(s: Seq<char>) -> Option<Seq<Entry>> {
    scan(s, 0, None)
}

/// The distinct indices of the placeholders.
pub open spec fn indices(e: Seq<Entry>) -> Set<usize>
    decreases e.len(),
{
    if e.len() == 0 {
        Set::empty()
    } else {
        indices(e.drop_last()).insert(e.last().1)
    }
}

/// The largest index of the placeholders (0 where there are none).
pub open spec fn max_index(e: Seq<Entry>) -> nat
    decreases e.len(),
{
    if e.len() == 0 {
        0
    } else if max_index(e.drop_last()) >= e.last().1 {
        max_index(e.drop_last())
    } else {
        e.last().1 as nat
    }
}

/// Every index from 0 up to `n` (excluded) is used by some placeholder.
pub open spec fn covers_below(e: Seq<Entry>, n: int) -> bool {
    forall|k: usize| 0 <= k < n ==> #[trigger] indices(e).contains(k)
}

/// The indices of the placeholders are exactly `0 ..= max`, with no gap.
pub open spec fn contiguous(e: Seq<Entry>) -> bool {
    e.len() == 0 || covers_below(e, max_index(e) as int + 1)
}

/// The number of distinct indices of a contiguous placeholder list.
pub open spec fn count_of(e: Seq<Entry>) -> nat {
    if e.len() == 0 {
        0
    } else {
        max_index(e) + 1
    }
}

/// Spans lie inside `[0, hi)`, each `{` before its `}`, left to right without overlap.
pub open spec fn spans_ordered(e: Seq<Entry>, hi: int) -> bool {
    &&& forall|k: int| 0 <= k < e.len() ==> #[trigger] e[k].0.0 < e[k].0.1 && e[k].0.1 < hi
    &&& forall|k: int, l: int| 0 <= k < l < e.len() ==> #[trigger] e[k].0.1 < #[trigger] e[l].0.0
}

/// The text of `s` from `pos` on, with the placeholders from the `k`-th on
/// replaced by their substitutions.
pub open spec fn render_from(
    s: Seq<char>,
    e: Seq<Entry>,
    args: Seq<Seq<char>>,
    k: int,
    pos: int,
) -> Seq<char>
    decreases e.len() - k,
{
    if k >= e.len() || k < 0 {
        s.subrange(pos, s.len() as int)
    } else {
        s.subrange(pos, e[k].0.0 as int) + args[e[k].1 as int] + render_from(
            s,
            e,
            args,
            k + 1,
            e[k].0.1 + 1,
        )
    }
}

/// The whole text with every placeholder replaced by its substitution.
pub open spec fn render(s: Seq<char>, e: Seq<Entry>, args: Seq<Seq<char>>) -> Seq<char> {
    render_from(s, e, args, 0, 0)
}

/// The views of a list of strings.
pub open spec fn views(v: Seq<String>) -> Seq<Seq<char>> {
    v.map_values(|x: String| x@)
}

proof fn lemma_digits_prefix(d: Seq<char>, k: int)
    requires
        all_digits(d),
        0 <= k <= d.len(),
    ensures
        digits_value(d.subrange(0, k)) <= digits_value(d),
    decreases d.len(),
{
    if k == d.len() {
        assert(d.subrange(0, k) =~= d);
    } else {
        let p = d.drop_last();
        assert(all_digits(p)) by {
            assert forall|i: int| 0 <= i < p.len() implies is_digit(#[trigger] p[i]) by {
                assert(p[i] == d[i]);
            }
        }
        lemma_digits_prefix(p, k);
        assert(p.subrange(0, k) =~= d.subrange(0, k));
    }
}

/// The placeholder index written in `s[from..to]`, if it holds one.
fn parse_index(s: &Vec<char>, from: usize, to: usize) -> (r: Option<usize>)
    requires
        from <= to <= s@.len(),
    ensures
        r == index_value(s@.subrange(from as int, to as int)),
{
    let ghost t = s@.subrange(from as int, to as int);
    let mut start: usize = from;
    if from < to && s[from] == '+' {
        start = from + 1;
    }
    let ghost d = s@.subrange(start as int, to as int);
    assert(d =~= unsigned_digits(t));
    if start == to {
        return None;
    }
    let mut k: usize = start;
    while k < to
        invariant
            start <= k <= to,
            to <= s@.len(),
            d == s@.subrange(start as int, to as int),
            d == unsigned_digits(t),
            t == s@.subrange(from as int, to as int),
            forall|i: int| 0 <= i < k - start ==> is_digit(#[trigger] d[i]),
        decreases to - k,
    {
        let c = s[k];
        if !('0' <= c && c <= '9') {
            assert(d[k - start] == c);
            assert(!is_digit(d[k - start]));
            assert(!all_digits(d));
            return None;
        }
        k = k + 1;
    }
    assert(all_digits(d));
    let mut value: usize = 0;
    k = start;
    while k < to
        invariant
            start <= k <= to,
            to <= s@.len(),
            d == s@.subrange(start as int, to as int),
            d == unsigned_digits(t),
            t == s@.subrange(from as int, to as int),
            all_digits(d),
            value as nat == digits_value(d.subrange(0, k - start)),
        decreases to - k,
    {
        let ghost before = d.subrange(0, k - start);
        let ghost after = d.subrange(0, k - start + 1);
        assert(after.drop_last() =~= before);
        assert(after.last() == s@[k as int]);
        assert(is_digit(d[k - start]));
        let digit = ((s[k] as u32) - ('0' as u32)) as usize;
        assert(digits_value(after) == value * 10 + digit);
        match value.checked_mul(10) {
            None => {
                proof {
                    lemma_digits_prefix(d, k - start + 1);
                    assert(value * 10 + digit > usize::MAX) by (nonlinear_arith)
                        requires value * 10 > usize::MAX;
                }
                return None;
            },
            Some(v) => match v.checked_add(digit) {
                None => {
                    proof {
                        lemma_digits_prefix(d, k - start + 1);
                    }
                    return None;
                },
                Some(w) => {
                    value = w;
                },
            },
        }
        k = k + 1;
    }
    assert(d.subrange(0, d.len() as int) =~= d);
    Some(value)
}

/// `e` followed by `rest`, or `None` where `rest` is `None`.
pub open spec fn prefixed(e: Seq<Entry>, rest: Option<Seq<Entry>>) -> Option<Seq<Entry>> {
    match rest {
        None => None,
        Some(r) => Some(e + r),
    }
}

pub open spec fn open_pos(open: Option<usize>) -> Option<int> {
    match open {
        None => None,
        Some(i) => Some(i as int),
    }
}

proof fn lemma_prefixed_push(e: Seq<Entry>, x: Entry, rest: Option<Seq<Entry>>)
    ensures
        prefixed(
            e,
            match rest {
                None => None,
                Some(r) => Some(seq![x] + r),
            },
        ) == prefixed(e.push(x), rest),
{
    if let Some(r) = rest {
        assert(e + (seq![x] + r) =~= e.push(x) + r);
    }
}

proof fn lemma_prefix_set_len(n: nat)
    requires
        n <= usize::MAX + 1,
    ensures
        Set::new(|k: usize| (k as nat) < n).finite(),
        Set::new(|k: usize| (k as nat) < n).len() == n,
    decreases n,
{
    if n == 0 {
        assert(Set::new(|k: usize| (k as nat) < n) =~= Set::<usize>::empty());
    } else {
        lemma_prefix_set_len((n - 1) as nat);
        let below = Set::new(|k: usize| (k as nat) < (n - 1) as nat);
        assert(Set::new(|k: usize| (k as nat) < n) =~= below.insert((n - 1) as usize));
    }
}

/// Appends `s[from..to]` to `out`.
fn push_chars(out: &mut String, s: &Vec<char>, from: usize, to: usize)
    requires
        from <= to <= s@.len(),
    ensures
        final(out)@ == old(out)@ + s@.subrange(from as int, to as int),
{
    let mut k: usize = from;
    while k < to
        invariant
            from <= k <= to,
            to <= s@.len(),
            out@ == old(out)@ + s@.subrange(from as int, k as int),
        decreases to - k,
    {
        out.push(s[k]);
        assert(s@.subrange(from as int, k + 1) =~= s@.subrange(from as int, k as int).push(s@[k as int]));
        k = k + 1;
    }
}

/// `s` holds placeholders whose indices leave no gap.
pub open spec fn parses(s: Seq<char>) -> bool {
    placeholders_of(s) matches Some(e) && contiguous(e)
}

/// Parsing `s` fails with `err`: an unmatched `{`, or else the smallest index
/// missing from `0 ..= max`.
pub open spec fn parse_fails_with(s: Seq<char>, err: ParseError) -> bool {
    match placeholders_of(s) {
        None => err == ParseError::UnmatchedBrace,
        Some(e) => match err {
            ParseError::MissingParameter(n) => e.len() > 0 && n <= max_index(e) && !indices(
                e,
            ).contains(n) && covers_below(e, n as int),
            ParseError::UnmatchedBrace => false,
        },
    }
}

/// The placeholders of a text that parses.
pub open spec fn entries_of(s: Seq<char>) -> Seq<Entry> {
    placeholders_of(s).unwrap_or(Seq::empty())
}

/// The parameter count of a text that parses.
pub open spec fn parameter_count(s: Seq<char>) -> nat {
    count_of(entries_of(s))
}

/// A text that parses, rendered with `args`.
pub open spec fn rendered(s: Seq<char>, args: Seq<Seq<char>>) -> Seq<char> {
    render(s, entries_of(s), args)
}

/// A template whose `{N}` placeholders were found and checked.
#[derive(Debug)]
pub struct ParameterizedString {
    input: Vec<char>,
    parameters: Placeholders,
    count: usize,
}

impl ParameterizedString {
    /// The characters of the template.
    pub closed spec fn text(&self) -> Seq<char> {
        self.input@
    }

    /// The placeholders, left to right.
    pub closed spec fn entries(&self) -> Seq<Entry> {
        placeholder_entries(self.parameters)
    }

    /// The number of distinct placeholder indices.
    pub closed spec fn count(&self) -> nat {
        self.count as nat
    }

    /// The placeholders are those of the text, contiguous, and counted.
    pub open spec fn wf(&self) -> bool {
        &&& placeholders_of(self.text()) == Some(self.entries())
        &&& contiguous(self.entries())
        &&& self.count() == count_of(self.entries())
        &&& spans_ordered(self.entries(), self.text().len() as int)
        &&& forall|k: int|
            0 <= k < self.entries().len() ==> #[trigger] self.entries()[k].1 < self.count()
    }

    /// Parses the placeholders of `input`.
    pub fn new(input: &str) -> (r: Result<ParameterizedString, ParseError>)
        ensures
            r is Ok <==> parses(input@),
            r matches Ok(p) ==> p.wf() && p.text() == input@,
            r matches Err(err) ==> parse_fails_with(input@, err),
    {
        let chars = chars_of(input);
        match Self::extract_parameters(&chars) {
            Ok((parameters, count)) => Ok(ParameterizedString { input: chars, parameters, count }),
            Err(why) => Err(why),
        }
    }

    /// The number of distinct placeholder indices, that is the number of
    /// substitutions that rendering takes.
    pub fn parameters(&self) -> (r: usize)
        ensures
            r == self.count(),
    {
        self.count
    }

    /// Renders the template, with `parameters[N]` in place of each `{N}` and the
    /// rest of the text unchanged.
    pub fn to_string(&self, parameters: &Vec<String>) -> (r: Result<String, RenderError>)
        requires
            self.wf(),
        ensures
            parameters@.len() != self.count() ==> r == Err::<String, RenderError>(
                (RenderError::ParameterCountMismatch {
                    expected: self.count() as usize,
                    actual: parameters@.len() as usize,
                }),
            ),
            parameters@.len() == self.count() ==> (r matches Ok(t) && t@ == render(
                self.text(),
                self.entries(),
                views(parameters@),
            )),
    {
        if parameters.len() != self.count {
            return Err(
                RenderError::ParameterCountMismatch {
                    expected: self.count,
                    actual: parameters.len(),
                },
            );
        }
        let ghost s = self.text();
        let ghost e = self.entries();
        let ghost args = views(parameters@);
        let mut result = String::new();
        let mut index: usize = 0;
        let len = placeholder_count(&self.parameters);
        let total = self.input.len();
        let mut k: usize = 0;
        while k < len
            invariant
                self.wf(),
                s == self.text(),
                e == self.entries(),
                args == views(parameters@),
                len == e.len(),
                total == s.len(),
                k <= len,
                parameters@.len() == self.count(),
                index <= s.len(),
                k < len ==> index <= e[k as int].0.0,
                result@ + render_from(s, e, args, k as int, index as int) == render(s, e, args),
            decreases len - k,
        {
            let ((start, end), i) = placeholder_at(&self.parameters, k).unwrap();
            let ghost before = result@;
            assert(e[k as int].0.0 < e[k as int].0.1 < s.len());
            assert(e[k as int].1 < self.count());
            push_chars(&mut result, &self.input, index, start);
            result.push_str(parameters[i].as_str());
            proof {
                let rest = render_from(s, e, args, k + 1, end + 1);
                assert(before + (s.subrange(index as int, start as int) + args[i as int] + rest)
                    =~= result@ + rest);
                if k + 1 < len {
                    assert(e[k as int].0.1 < e[k + 1].0.0);
                }
            }
            index = end + 1;
            k = k + 1;
        }
        let ghost before = result@;
        push_chars(&mut result, &self.input, index, self.input.len());
        assert(before + render_from(s, e, args, k as int, index as int) =~= result@);
        Ok(result)
    }

    fn extract_parameters(input: &Vec<char>) -> (r: Result<(Placeholders, usize), ParseError>)
        ensures
            placeholders_of(input@) is None <==> r == Err::<(Placeholders, usize), ParseError>(
                ParseError::UnmatchedBrace,
            ),
            placeholders_of(input@) matches Some(e) ==> match r {
                Ok((m, count)) => placeholder_entries(m) == e && contiguous(e) && count
                    == count_of(e) && spans_ordered(e, input@.len() as int) && (forall|k: int|
                    0 <= k < e.len() ==> #[trigger] e[k].1 < count),
                Err(ParseError::MissingParameter(n)) => e.len() > 0 && n <= max_index(e)
                    && !indices(e).contains(n) && covers_below(e, n as int),
                Err(ParseError::UnmatchedBrace) => false,
            },
    {
        broadcast use vstd::std_specs::hash::group_hash_axioms;

        let mut parameters = new_placeholders();
        let mut set: HashSet<usize> = HashSet::new();
        let mut max: usize = 0;
        let mut open: Option<usize> = None;
        let n = input.len();
        let mut pos: usize = 0;
        while pos < n
            invariant
                n == input@.len(),
                pos <= n,
                placeholders_of(input@) == prefixed(
                    placeholder_entries(parameters),
                    scan(input@, pos as int, open_pos(open)),
                ),
                set@ == indices(placeholder_entries(parameters)),
                set@.finite(),
                max as nat == max_index(placeholder_entries(parameters)),
                spans_ordered(placeholder_entries(parameters), pos as int),
                forall|k: int|
                    0 <= k < placeholder_entries(parameters).len() ==> (#[trigger] placeholder_entries(
                        parameters,
                    )[k]).0.1 < pos && (open matches Some(i) ==> placeholder_entries(parameters)[k].0.1 < i),
                open matches Some(i) ==> i < pos,
            decreases n - pos,
        {
            let ghost e = placeholder_entries(parameters);
            let c = input[pos];
            match open {
                None => {
                    if c == '{' {
                        open = Some(pos);
                    }
                },
                Some(i) => {
                    if c == '{' {
                        return Err(ParseError::UnmatchedBrace);
                    } else if c == '}' {
                        match parse_index(input, i + 1, pos) {
                            Some(num) => {
                                let x: Entry = ((i, pos), num);
                                proof {
                                    lemma_prefixed_push(e, x, scan(input@, pos + 1, None));
                                    assert(!has_span(e, (i, pos)));
                                }
                                insert_placeholder(&mut parameters, (i, pos), num);
                                set.insert(num);
                                if num > max {
                                    max = num;
                                }
                                proof {
                                    let e2 = placeholder_entries(parameters);
                                    assert(e2.drop_last() =~= e);
                                    assert(set@ =~= indices(e2));
                                }
                            },
                            None => {},
                        }
                        open = None;
                    }
                },
            }
            pos = pos + 1;
        }
        if open.is_some() {
            return Err(ParseError::UnmatchedBrace);
        }
        let ghost e = placeholder_entries(parameters);
        assert(placeholders_of(input@) == Some(e)) by {
            assert(e + Seq::<Entry>::empty() =~= e);
        }
        proof {
            lemma_max_bound(e);
        }
        if set.is_empty() {
            proof {
                if e.len() > 0 {
                    assert(indices(e).contains(e.last().1));
                }
            }
            return Ok((parameters, 0));
        }
        let mut num: usize = 0;
        loop
            invariant
                e == placeholder_entries(parameters),
                placeholders_of(input@) == Some(e),
                e.len() > 0,
                set@ == indices(e),
                set@.finite(),
                max as nat == max_index(e),
                num <= max,
                covers_below(e, num as int),
            ensures
                covers_below(e, max as int + 1),
            decreases max - num,
        {
            if !set.contains(&num) {
                return Err(ParseError::MissingParameter(num));
            }
            if num == max {
                break;
            }
            num = num + 1;
        }
        let size = set.len();
        proof {
            let below = Set::new(|k: usize| (k as nat) < max as nat + 1);
            lemma_prefix_set_len(max as nat + 1);
            assert(below.subset_of(set@)) by {
                assert forall|k: usize| below.contains(k) implies set@.contains(k) by {
                    assert(indices(e).contains(k));
                }
            }
            vstd::set_lib::lemma_len_subset(below, set@);
        }
        Ok((parameters, max + 1))
    }
}

/// No index of a placeholder exceeds the largest.
proof fn lemma_max_bound(e: Seq<Entry>)
    ensures
        forall|k: int| 0 <= k < e.len() ==> #[trigger] e[k].1 <= max_index(e),
        e.len() > 0 ==> indices(e).contains(max_index(e) as usize),
    decreases e.len(),
{
    if e.len() > 0 {
        lemma_max_bound(e.drop_last());
        assert forall|k: int| 0 <= k < e.len() implies #[trigger] e[k].1 <= max_index(e) by {
            if k < e.len() - 1 {
                assert(e[k] == e.drop_last()[k]);
            }
        }
    }
}

proof fn lemma_scan_plain(s: Seq<char>, pos: int)
    requires
        0 <= pos <= s.len(),
        forall|i: int| 0 <= i < s.len() ==> s[i] != '{',
    ensures
        scan(s, pos, None) == Some(Seq::<Entry>::empty()),
    decreases s.len() - pos,
{
    if pos < s.len() {
        lemma_scan_plain(s, pos + 1);
    }
}

/// A text without `{` parses, with no placeholders.
pub proof fn lemma_plain_text_parses(s: Seq<char>)
    requires
        forall|i: int| 0 <= i < s.len() ==> s[i] != '{',
    ensures
        placeholders_of(s) == Some(Seq::<Entry>::empty()),
        parses(s),
        parameter_count(s) == 0,
{
    lemma_scan_plain(s, 0);
}

/// A text that parses with no placeholders takes no substitutions and renders
/// back to itself.
pub proof fn lemma_round_trip_without_placeholders(s: Seq<char>)
    requires
        placeholders_of(s) == Some(Seq::<Entry>::empty()),
    ensures
        parses(s),
        parameter_count(s) == 0,
        rendered(s, Seq::empty()) == s,
{
    assert(s.subrange(0, s.len() as int) =~= s);
}

/// The decimal digit of `d`, for `d < 10`.
pub open spec fn digit_char(d: nat) -> char {
    ((48 + d) as u8) as char
}

/// The decimal numeral of `n`, with no leading zero.
pub open spec fn decimal(n: nat) -> Seq<char>
    decreases n,
{
    if n < 10 {
        seq![digit_char(n)]
    } else {
        decimal(n / 10) + seq![digit_char(n % 10)]
    }
}

/// `"s"` unless `n` is 1.
pub open spec fn plural(n: nat) -> Seq<char> {
    if n == 1 {
        Seq::empty()
    } else {
        seq!['s']
    }
}

/// Appends the decimal numeral of `n` to `out`.
fn push_decimal(out: &mut String, n: usize)
    ensures
        final(out)@ == old(out)@ + decimal(n as nat),
    decreases n,
{
    if n >= 10 {
        push_decimal(out, n / 10);
    }
    out.push(((48 + n % 10) as u8) as char);
    assert(out@ =~= old(out)@ + decimal(n as nat));
}

/// Appends `"s"` to `out` unless `n` is 1.
fn push_plural(out: &mut String, n: usize)
    ensures
        final(out)@ == old(out)@ + plural(n as nat),
{
    if n != 1 {
        out.push('s');
    } else {
        assert(out@ =~= out@ + Seq::<char>::empty());
    }
}

impl ParseError {
    /// The text that tells a user what is wrong.
    pub fn message(&self) -> (r: String)
        ensures
            r@ == match self {
                ParseError::UnmatchedBrace => "Unmatched '{' found."@,
                ParseError::MissingParameter(n) => "Missing parameter: {"@ + decimal(*n as nat)
                    + "}"@,
            },
    {
        let mut r = String::new();
        match self {
            ParseError::UnmatchedBrace => {
                r.push_str("Unmatched '{' found.");
                assert(r@ =~= "Unmatched '{' found."@);
            },
            ParseError::MissingParameter(n) => {
                r.push_str("Missing parameter: {");
                push_decimal(&mut r, *n);
                r.push_str("}");
                assert(r@ =~= "Missing parameter: {"@ + decimal(*n as nat) + "}"@);
            },
        }
        r
    }
}

impl RenderError {
    /// The text that tells a user what is wrong, with each count and the word
    /// "parameter" made plural where the count is not 1.
    pub fn message(&self) -> (r: String)
        ensures
            match self {
                RenderError::ParameterCountMismatch { expected, actual } => r@ == "Expected "@
                    + decimal(*expected as nat) + " parameter"@ + plural(*expected as nat)
                    + ", got "@ + decimal(*actual as nat) + " parameter"@ + plural(*actual as nat),
            },
    {
        let mut r = String::new();
        match self {
            RenderError::ParameterCountMismatch { expected, actual } => {
                r.push_str("Expected ");
                push_decimal(&mut r, *expected);
                r.push_str(" parameter");
                push_plural(&mut r, *expected);
                r.push_str(", got ");
                push_decimal(&mut r, *actual);
                r.push_str(" parameter");
                push_plural(&mut r, *actual);
                assert(r@ =~= "Expected "@ + decimal(*expected as nat) + " parameter"@ + plural(
                    *expected as nat,
                ) + ", got "@ + decimal(*actual as nat) + " parameter"@ + plural(*actual as nat));
            },
        }
        r
    }
}

} // verus!
