use vstd::prelude::*;

verus! {

/// A logical combination of filters.
pub enum LogicalWrapper {
    And(Vec<Filter>),
    Or(Vec<Filter>),
    Not(Filter),
}

/// A test on a single field value.
pub enum FieldFilter {
    /// The value equals one of the listed cases.
    In(Vec<String>),
    /// The value equals the given case.
    IsExact(String),
    /// The value occurs somewhere inside the given text.
    Contains(String),
}

/// A filter tree: logical operators over field tests.
pub enum Filter {
    Operator(Box<LogicalWrapper>),
    Filter(FieldFilter),
}

/// `needle` occurs as a contiguous run of characters inside `hay`.
pub open spec fn is_substring(needle: Seq<char>, hay: Seq<char>) -> bool {
    exists|i: int| 0 <= i && i + needle.len() <= hay.len() && #[trigger] hay.subrange(i, i + needle.len()) == needle
}

/// `value` is one of the strings in `cases`.
pub open spec fn is_listed(value: Seq<char>, cases: Seq<String>) -> bool {
    exists|i: int| 0 <= i < cases.len() && #[trigger] cases[i]@ == value
}

/// Whether a field test accepts a value.
pub open spec fn field_filter_matches(value: Seq<char>, f: FieldFilter) -> bool {
    match f {
        FieldFilter::In(cases) => is_listed(value, cases@),
        FieldFilter::IsExact(case) => case@ == value,
        FieldFilter::Contains(text) => is_substring(value, text@),
    }
}

/// Whether a filter tree accepts a value: `And` of all children, `Or` of
/// any child, `Not` of its child.
pub open spec fn filter_matches(value: Seq<char>, f: Filter) -> bool
    decreases f, 0int,
{
    match f {
        Filter::Operator(op) => match *op {
            LogicalWrapper::And(fs) => all_match(value, fs@, fs@.len() as int),
            LogicalWrapper::Or(fs) => any_match(value, fs@, fs@.len() as int),
            LogicalWrapper::Not(g) => !filter_matches(value, g),
        },
        Filter::Filter(ff) => field_filter_matches(value, ff),
    }
}

/// Every one of the first `n` filters accepts `value`.
pub open spec fn all_match(value: Seq<char>, fs: Seq<Filter>, n: int) -> bool
    decreases fs, n,
{
    if n <= 0 || n > fs.len() {
        true
    } else {
        all_match(value, fs, n - 1) && filter_matches(value, fs[n - 1])
    }
}

/// Some one of the first `n` filters accepts `value`.
pub open spec fn any_match(value: Seq<char>, fs: Seq<Filter>, n: int) -> bool
    decreases fs, n,
{
    if n <= 0 || n > fs.len() {
        false
    } else {
        any_match(value, fs, n - 1) || filter_matches(value, fs[n - 1])
    }
}

/// Law: `And` accepts a value when each of its filters does, `Or` when one
/// of them does; an empty `And` accepts everything and an empty `Or`
/// nothing.
pub proof fn lemma_and_or_meaning(value: Seq<char>, fs: Seq<Filter>)
    ensures
        all_match(value, fs, fs.len() as int) <==> (forall|i: int| 0 <= i < fs.len() ==> #[trigger] filter_matches(value, fs[i])),
        any_match(value, fs, fs.len() as int) <==> (exists|i: int| 0 <= i < fs.len() && #[trigger] filter_matches(value, fs[i])),
{
    lemma_all_any_prefix(value, fs, fs.len() as int);
}

proof fn lemma_all_any_prefix(value: Seq<char>, fs: Seq<Filter>, n: int)
    requires
        0 <= n <= fs.len(),
    ensures
        all_match(value, fs, n) <==> (forall|i: int| 0 <= i < n ==> #[trigger] filter_matches(value, fs[i])),
        any_match(value, fs, n) <==> (exists|i: int| 0 <= i < n && #[trigger] filter_matches(value, fs[i])),
    decreases n,
{
    if n > 0 {
        lemma_all_any_prefix(value, fs, n - 1);
        assert(all_match(value, fs, n) == (all_match(value, fs, n - 1) && filter_matches(value, fs[n - 1])));
        assert(any_match(value, fs, n) == (any_match(value, fs, n - 1) || filter_matches(value, fs[n - 1])));
        if all_match(value, fs, n) {
            assert forall|i: int| 0 <= i < n implies #[trigger] filter_matches(value, fs[i]) by {
                if i < n - 1 {
                    assert(filter_matches(value, fs[i]));
                }
            }
        }
        if (forall|i: int| 0 <= i < n ==> #[trigger] filter_matches(value, fs[i])) {
            assert(filter_matches(value, fs[n - 1]));
            assert forall|i: int| 0 <= i < n - 1 implies #[trigger] filter_matches(value, fs[i]) by {
                assert(filter_matches(value, fs[i]));
            }
        }
        if any_match(value, fs, n) {
            if filter_matches(value, fs[n - 1]) {
                assert(exists|i: int| 0 <= i < n && #[trigger] filter_matches(value, fs[i]));
            } else {
                let i = choose|i: int| 0 <= i < n - 1 && #[trigger] filter_matches(value, fs[i]);
                assert(0 <= i < n && filter_matches(value, fs[i]));
            }
        }
        if (exists|i: int| 0 <= i < n && #[trigger] filter_matches(value, fs[i])) {
            let i = choose|i: int| 0 <= i < n && #[trigger] filter_matches(value, fs[i]);
            if i < n - 1 {
                assert(exists|i2: int| 0 <= i2 < n - 1 && #[trigger] filter_matches(value, fs[i2]));
            }
        }
    }
}

/// Law: a filter under two `Not`s accepts what the filter accepts.
pub proof fn lemma_double_not(value: Seq<char>, f: Filter)
    ensures
        filter_matches(
            value,
            Filter::Operator(Box::new(LogicalWrapper::Not(Filter::Operator(Box::new(LogicalWrapper::Not(f)))))),
        ) == filter_matches(value, f),
{
    reveal_with_fuel(filter_matches, 3);
}

/// Whether `needle` occurs inside `hay`, as `str::contains` answers it.
fn contains_text(hay: &String, needle: &String) -> (r: bool)
    ensures
        r == is_substring(needle@, hay@),
        r == (exists|i: int|
            0 <= i && i + needle@.len() <= hay@.len() && #[trigger] hay@.subrange(i, i + needle@.len()) == needle@),
{
    let h = hay.as_str();
    let n = needle.as_str();
    let hl = h.unicode_len();
    let nl = n.unicode_len();
    if nl > hl {
        return false;
    }
    let mut i: usize = 0;
    while i <= hl - nl
        invariant
            h@ == hay@,
            n@ == needle@,
            hl == hay@.len(),
            nl == needle@.len(),
            nl <= hl,
            i <= hl - nl + 1,
            forall|k: int| 0 <= k < i ==> #[trigger] hay@.subrange(k, k + nl) != needle@,
        decreases hl - nl + 1 - i,
    {
        let mut j: usize = 0;
        let mut same = true;
        while j < nl
            invariant
                h@ == hay@,
                n@ == needle@,
                hl == hay@.len(),
                nl == needle@.len(),
                i + nl <= hl,
                j <= nl,
                same == (forall|k: int| 0 <= k < j ==> hay@[i + k] == #[trigger] needle@[k]),
            decreases nl - j,
        {
            if h.get_char(i + j) != n.get_char(j) {
                same = false;
            }
            j += 1;
        }
        if same {
            assert(hay@.subrange(i as int, i + nl) =~= needle@);
            return true;
        }
        assert(hay@.subrange(i as int, i + nl)[(choose|k: int| 0 <= k < nl && hay@[i + k] != needle@[k])]
            != needle@[(choose|k: int| 0 <= k < nl && hay@[i + k] != needle@[k])]);
        i += 1;
    }
    proof {
        assert forall|k: int| 0 <= k && k + needle@.len() <= hay@.len() implies #[trigger] hay@.subrange(k, k + needle@.len()) != needle@ by {
            assert(k < i);
        }
    }
    false
}

/// Whether `value` is one of `cases`, as `Vec::contains` answers it.
fn is_listed_exec(cases: &Vec<String>, value: &String) -> (r: bool)
    ensures
        r == is_listed(value@, cases@),
{
    let mut i: usize = 0;
    while i < cases.len()
        invariant
            i <= cases.len(),
            forall|k: int| 0 <= k < i ==> cases@[k]@ != value@,
        decreases cases.len() - i,
    {
        if cases[i] == *value {
            return true;
        }
        i += 1;
    }
    false
}

/// Runs a filter tree on a value.
#[verifier::loop_isolation(false)]
pub fn execute_filter(value: &String, filter: &Filter) -> (r: bool)
    ensures
        r == filter_matches(value@, *filter),
    decreases filter,
{
    match filter {
        Filter::Operator(o) => match &**o {
            LogicalWrapper::And(wrapper) => {
                let mut state = true;
                let mut i: usize = 0;
                while i < wrapper.len()
                    invariant
                        i <= wrapper.len(),
                        state == all_match(value@, wrapper@, i as int),
                    decreases wrapper.len() - i,
                {
                    if state {
                        proof {
                            assert(decreases_to!(*filter => wrapper@[i as int]));
                        }
                        state = execute_filter(value, &wrapper[i]);
                    }
                    i += 1;
                }
                state
            },
            LogicalWrapper::Or(wrapper) => {
                let mut state = false;
                let mut i: usize = 0;
                while i < wrapper.len()
                    invariant
                        i <= wrapper.len(),
                        state == any_match(value@, wrapper@, i as int),
                    decreases wrapper.len() - i,
                {
                    if !state {
                        proof {
                            assert(decreases_to!(*filter => wrapper@[i as int]));
                        }
                        state = execute_filter(value, &wrapper[i]);
                    }
                    i += 1;
                }
                state
            },
            LogicalWrapper::Not(f) => !execute_filter(value, f),
        },
        Filter::Filter(f) => match f {
            FieldFilter::In(cases) => is_listed_exec(cases, value),
            FieldFilter::IsExact(case) => *case == *value,
            FieldFilter::Contains(cases) => contains_text(cases, value),
        },
    }
}

/// Two filter trees of the same shape, with the same texts in the same
/// places.
pub open spec fn same_filter(f: Filter, g: Filter) -> bool
    decreases f, 0int,
{
    match f {
        Filter::Operator(o1) => match g {
            Filter::Operator(o2) => match *o1 {
                LogicalWrapper::And(fs) => match *o2 {
                    LogicalWrapper::And(gs) => fs@.len() == gs@.len() && all_same_filter(fs@, gs@, fs@.len() as int),
                    _ => false,
                },
                LogicalWrapper::Or(fs) => match *o2 {
                    LogicalWrapper::Or(gs) => fs@.len() == gs@.len() && all_same_filter(fs@, gs@, fs@.len() as int),
                    _ => false,
                },
                LogicalWrapper::Not(a) => match *o2 {
                    LogicalWrapper::Not(b) => same_filter(a, b),
                    _ => false,
                },
            },
            _ => false,
        },
        Filter::Filter(a) => match g {
            Filter::Filter(b) => match a {
                FieldFilter::In(x) => match b {
                    FieldFilter::In(y) => x.deep_view() == y.deep_view(),
                    _ => false,
                },
                FieldFilter::IsExact(x) => match b {
                    FieldFilter::IsExact(y) => x@ == y@,
                    _ => false,
                },
                FieldFilter::Contains(x) => match b {
                    FieldFilter::Contains(y) => x@ == y@,
                    _ => false,
                },
            },
            _ => false,
        },
    }
}

/// The first `n` filters of the two lists are the same, pairwise.
pub open spec fn all_same_filter(fs: Seq<Filter>, gs: Seq<Filter>, n: int) -> bool
    decreases fs, n,
{
    if n <= 0 || n > fs.len() || n > gs.len() {
        true
    } else {
        all_same_filter(fs, gs, n - 1) && same_filter(fs[n - 1], gs[n - 1])
    }
}

/// Law: `Contains(text)` accepts a value exactly when the value is a run of
/// consecutive characters of `text`. Every run of `text` is accepted; an
/// accepted value is no longer than `text` and equals the run of `text` that
/// starts at some position.
pub proof fn lemma_contains_is_a_run(text: String, value: Seq<char>, i: int, j: int)
    ensures
        0 <= i <= j <= text@.len() ==> filter_matches(
            text@.subrange(i, j),
            Filter::Filter(FieldFilter::Contains(text)),
        ),
        filter_matches(value, Filter::Filter(FieldFilter::Contains(text))) <==> exists|k: int|
            0 <= k && k + value.len() <= text@.len() && #[trigger] text@.subrange(k, k + value.len()) == value,
        filter_matches(value, Filter::Filter(FieldFilter::Contains(text))) ==> value.len() <= text@.len(),
{
    if 0 <= i <= j <= text@.len() {
        let run = text@.subrange(i, j);
        assert(text@.subrange(i, i + run.len()) == run);
    }
}

} // verus!
