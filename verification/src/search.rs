//! The search engine: return, in source order, every line of a text that
//! contains a query, either exactly or ignoring case.

use vstd::prelude::*;

verus! {

use crate::lines::spec_lines;
use crate::lines::split_lines;
use crate::text::contains_seq;
use crate::text::contains_substring;
use crate::text::lower_of;
use crate::text::lowercase;
use crate::config::Config;

/// The lines, in order, that satisfy `pred`.
pub open spec fn filter_lines(lines: Seq<Seq<char>>, pred: spec_fn(Seq<char>) -> bool) -> Seq<
    Seq<char>,
>
    decreases lines.len(),
{
    if lines.len() == 0 {
        Seq::empty()
    } else if pred(lines[0]) {
        seq![lines[0]] + filter_lines(lines.drop_first(), pred)
    } else {
        filter_lines(lines.drop_first(), pred)
    }
}

/// A line matches a case-sensitive search for `query`.
pub open spec fn sensitive_match(query: Seq<char>) -> spec_fn(Seq<char>) -> bool {
    |line: Seq<char>| contains_seq(line, query)
}

/// A line matches a case-insensitive search for `query`: its lower-cased
/// form contains the lower-cased query.
pub open spec fn insensitive_match(query: Seq<char>) -> spec_fn(Seq<char>) -> bool {
    |line: Seq<char>| contains_seq(lower_of(line), lower_of(query))
}

/// The lines of `contents` that contain `query` exactly, in source order.
pub open spec fn spec_search(query: Seq<char>, contents: Seq<char>) -> Seq<Seq<char>> {
    filter_lines(spec_lines(contents), sensitive_match(query))
}

/// The lines of `contents` whose lower-cased form contains the lower-cased
/// `query`, in source order.
pub open spec fn spec_search_case_insensitive(query: Seq<char>, contents: Seq<char>) -> Seq<
    Seq<char>,
> {
    filter_lines(spec_lines(contents), insensitive_match(query))
}

/// `a` is `b` with zero or more elements removed, order kept.
pub open spec fn is_subsequence_of<T>(a: Seq<T>, b: Seq<T>) -> bool
    decreases b.len(),
{
    if a.len() == 0 {
        true
    } else if b.len() == 0 {
        false
    } else {
        (a[0] == b[0] && is_subsequence_of(a.drop_first(), b.drop_first()))
            || is_subsequence_of(a, b.drop_first())
    }
}

/// Filtering keeps a subsequence of the lines it filters.
proof fn lemma_filter_lines_subsequence(lines: Seq<Seq<char>>, pred: spec_fn(Seq<char>) -> bool)
    ensures
        is_subsequence_of(filter_lines(lines, pred), lines),
    decreases lines.len(),
{
    if lines.len() == 0 {
    } else {
        let rest = lines.drop_first();
        lemma_filter_lines_subsequence(rest, pred);
        if pred(lines[0]) {
            let f = filter_lines(lines, pred);
            assert(f == seq![lines[0]] + filter_lines(rest, pred));
            assert(f[0] == lines[0]);
            assert(f.drop_first() =~= filter_lines(rest, pred));
        }
    }
}

/// Every filtered line satisfies the predicate and is one of the lines.
proof fn lemma_filter_lines_sound(lines: Seq<Seq<char>>, pred: spec_fn(Seq<char>) -> bool)
    ensures
        forall|i: int|
            0 <= i < filter_lines(lines, pred).len() ==> pred(
                #[trigger] filter_lines(lines, pred)[i],
            ) && lines.contains(filter_lines(lines, pred)[i]),
    decreases lines.len(),
{
    if lines.len() == 0 {
    } else {
        let rest = lines.drop_first();
        lemma_filter_lines_sound(rest, pred);
        let f = filter_lines(lines, pred);
        let fr = filter_lines(rest, pred);
        assert forall|i: int| 0 <= i < f.len() implies pred(#[trigger] f[i]) && lines.contains(
            f[i],
        ) by {
            if pred(lines[0]) {
                if i == 0 {
                    assert(f[0] == lines[0]);
                } else {
                    assert(f[i] == fr[i - 1]);
                    let j = choose|j: int| 0 <= j < rest.len() && rest[j] == fr[i - 1];
                    assert(lines[j + 1] == f[i]);
                }
            } else {
                assert(f[i] == fr[i]);
                let j = choose|j: int| 0 <= j < rest.len() && rest[j] == fr[i];
                assert(lines[j + 1] == f[i]);
            }
        }
    }
}

/// Every line that satisfies the predicate appears among the filtered lines.
proof fn lemma_filter_lines_complete(lines: Seq<Seq<char>>, pred: spec_fn(Seq<char>) -> bool)
    ensures
        forall|i: int|
            0 <= i < lines.len() && pred(#[trigger] lines[i]) ==> filter_lines(
                lines,
                pred,
            ).contains(lines[i]),
    decreases lines.len(),
{
    if lines.len() == 0 {
    } else {
        let rest = lines.drop_first();
        lemma_filter_lines_complete(rest, pred);
        let f = filter_lines(lines, pred);
        let fr = filter_lines(rest, pred);
        assert forall|i: int| 0 <= i < lines.len() && pred(#[trigger] lines[i]) implies f.contains(
            lines[i],
        ) by {
            if pred(lines[0]) {
                if i == 0 {
                    assert(f[0] == lines[0]);
                } else {
                    assert(rest[i - 1] == lines[i]);
                    let j = choose|j: int| 0 <= j < fr.len() && fr[j] == lines[i];
                    assert(f[j + 1] == lines[i]);
                }
            } else {
                assert(i != 0);
                assert(rest[i - 1] == lines[i]);
            }
        }
    }
}

/// When every line satisfies the predicate, filtering keeps all the lines.
proof fn lemma_filter_lines_all(lines: Seq<Seq<char>>, pred: spec_fn(Seq<char>) -> bool)
    requires
        forall|i: int| 0 <= i < lines.len() ==> pred(#[trigger] lines[i]),
    ensures
        filter_lines(lines, pred) == lines,
    decreases lines.len(),
{
    if lines.len() == 0 {
        assert(filter_lines(lines, pred) =~= lines);
    } else {
        let rest = lines.drop_first();
        assert(forall|i: int| 0 <= i < rest.len() ==> pred(#[trigger] rest[i]));
        lemma_filter_lines_all(rest, pred);
        assert(seq![lines[0]] + rest =~= lines);
    }
}

/// Law: a case-sensitive search returns only lines of `contents` that
/// contain `query` exactly, and returns every such line; a case-insensitive
/// search returns only lines whose lower-cased form contains the
/// lower-cased query, and returns every such line.
pub proof fn lemma_search_sound_and_complete(query: Seq<char>, contents: Seq<char>)
    ensures
        forall|i: int|
            0 <= i < spec_search(query, contents).len() ==> contains_seq(
                #[trigger] spec_search(query, contents)[i],
                query,
            ) && spec_lines(contents).contains(spec_search(query, contents)[i]),
        forall|i: int|
            0 <= i < spec_lines(contents).len() && contains_seq(
                #[trigger] spec_lines(contents)[i],
                query,
            ) ==> spec_search(query, contents).contains(spec_lines(contents)[i]),
        forall|i: int|
            0 <= i < spec_search_case_insensitive(query, contents).len() ==> contains_seq(
                lower_of(#[trigger] spec_search_case_insensitive(query, contents)[i]),
                lower_of(query),
            ) && spec_lines(contents).contains(spec_search_case_insensitive(query, contents)[i]),
        forall|i: int|
            0 <= i < spec_lines(contents).len() && contains_seq(
                lower_of(#[trigger] spec_lines(contents)[i]),
                lower_of(query),
            ) ==> spec_search_case_insensitive(query, contents).contains(
                spec_lines(contents)[i],
            ),
{
    lemma_filter_lines_sound(spec_lines(contents), sensitive_match(query));
    lemma_filter_lines_complete(spec_lines(contents), sensitive_match(query));
    lemma_filter_lines_sound(spec_lines(contents), insensitive_match(query));
    lemma_filter_lines_complete(spec_lines(contents), insensitive_match(query));
}

/// Law: search results keep the order in which the lines appear in
/// `contents`, in either mode.
pub proof fn lemma_search_order_stable(query: Seq<char>, contents: Seq<char>)
    ensures
        is_subsequence_of(spec_search(query, contents), spec_lines(contents)),
        is_subsequence_of(spec_search_case_insensitive(query, contents), spec_lines(contents)),
{
    lemma_filter_lines_subsequence(spec_lines(contents), sensitive_match(query));
    lemma_filter_lines_subsequence(spec_lines(contents), insensitive_match(query));
}

/// Law: an empty query matches every line, case-sensitively.
pub proof fn lemma_empty_query_matches_all_lines(contents: Seq<char>)
    ensures
        spec_search(Seq::empty(), contents) == spec_lines(contents),
{
    let all = spec_lines(contents);
    assert forall|i: int| 0 <= i < all.len() implies (sensitive_match(Seq::empty()))(
        #[trigger] all[i],
    ) by {
        assert(all[i].subrange(0, 0) =~= Seq::<char>::empty());
        assert(crate::text::contains_at(all[i], Seq::empty(), 0));
    }
    lemma_filter_lines_all(all, sensitive_match(Seq::empty()));
}

/// Search `contents` line by line for lines that contain `query` exactly,
/// returning the matching lines in source order as borrowed views into
/// `contents`.  An empty query matches every line.
pub fn search<'a>(query: &str, contents: &'a str) -> (results: Vec<&'a str>)
    ensures
        results.deep_view() == spec_search(query@, contents@),
        query@.len() == 0 ==> results.deep_view() == spec_lines(contents@),
{
    let ghost pred = sensitive_match(query@);
    let lines = split_lines(contents);
    let ghost all = lines.deep_view();
    let n = lines.len();
    let mut results: Vec<&'a str> = Vec::new();
    proof {
        assert(results.deep_view() =~= Seq::<Seq<char>>::empty());
        assert(all.subrange(0, n as int) =~= all);
        assert(Seq::<Seq<char>>::empty() + filter_lines(all, pred) =~= filter_lines(all, pred));
    }
    let mut i: usize = 0;
    while i < n
        invariant
            n == lines@.len(),
            all == lines.deep_view(),
            pred == sensitive_match(query@),
            0 <= i <= n,
            filter_lines(all, pred) == results.deep_view() + filter_lines(
                all.subrange(i as int, n as int),
                pred,
            ),
        decreases n - i,
    {
        let ghost remaining = all.subrange(i as int, n as int);
        proof {
            assert(remaining[0] == all[i as int]);
            assert(remaining.drop_first() =~= all.subrange(i + 1, n as int));
            assert(all[i as int] == lines@[i as int]@);
        }
        if contains_substring(lines[i], query) {
            let ghost dv0 = results.deep_view();
            results.push(lines[i]);
            proof {
                assert(results.deep_view() =~= dv0.push(all[i as int]));
                assert(dv0 + (seq![all[i as int]] + filter_lines(
                    all.subrange(i + 1, n as int),
                    pred,
                )) =~= dv0.push(all[i as int]) + filter_lines(
                    all.subrange(i + 1, n as int),
                    pred,
                ));
            }
        }
        i += 1;
    }
    proof {
        assert(all.subrange(n as int, n as int) =~= Seq::<Seq<char>>::empty());
        assert(results.deep_view() + Seq::<Seq<char>>::empty() =~= results.deep_view());
        if query@.len() == 0 {
            assert(query@ =~= Seq::<char>::empty());
            lemma_empty_query_matches_all_lines(contents@);
        }
    }
    results
}

/// Search `contents` line by line for lines whose lower-cased form contains
/// the lower-cased `query`, returning the matching lines — with their
/// original casing — in source order as borrowed views into `contents`.
/// An empty query matches every line.
pub fn search_case_insensitive<'a>(query: &str, contents: &'a str) -> (results: Vec<&'a str>)
    ensures
        results.deep_view() == spec_search_case_insensitive(query@, contents@),
        query@.len() == 0 ==> results.deep_view() == spec_lines(contents@),
{
    let ghost pred = insensitive_match(query@);
    let lowered_query = lowercase(query);
    let lines = split_lines(contents);
    let ghost all = lines.deep_view();
    let n = lines.len();
    let mut results: Vec<&'a str> = Vec::new();
    proof {
        assert(results.deep_view() =~= Seq::<Seq<char>>::empty());
        assert(all.subrange(0, n as int) =~= all);
        assert(Seq::<Seq<char>>::empty() + filter_lines(all, pred) =~= filter_lines(all, pred));
    }
    let mut i: usize = 0;
    while i < n
        invariant
            n == lines@.len(),
            all == lines.deep_view(),
            pred == insensitive_match(query@),
            lowered_query@ == lower_of(query@),
            0 <= i <= n,
            filter_lines(all, pred) == results.deep_view() + filter_lines(
                all.subrange(i as int, n as int),
                pred,
            ),
        decreases n - i,
    {
        let ghost remaining = all.subrange(i as int, n as int);
        proof {
            assert(remaining[0] == all[i as int]);
            assert(remaining.drop_first() =~= all.subrange(i + 1, n as int));
            assert(all[i as int] == lines@[i as int]@);
        }
        let lowered_line = lowercase(lines[i]);
        if contains_substring(lowered_line.as_str(), lowered_query.as_str()) {
            let ghost dv0 = results.deep_view();
            results.push(lines[i]);
            proof {
                assert(results.deep_view() =~= dv0.push(all[i as int]));
                assert(dv0 + (seq![all[i as int]] + filter_lines(
                    all.subrange(i + 1, n as int),
                    pred,
                )) =~= dv0.push(all[i as int]) + filter_lines(
                    all.subrange(i + 1, n as int),
                    pred,
                ));
            }
        }
        i += 1;
    }
    proof {
        assert(all.subrange(n as int, n as int) =~= Seq::<Seq<char>>::empty());
        assert(results.deep_view() + Seq::<Seq<char>>::empty() =~= results.deep_view());
        if query@.len() == 0 {
            assert(lower_of(query@) =~= Seq::<char>::empty());
            assert forall|k: int| 0 <= k < all.len() implies (insensitive_match(query@))(
                #[trigger] all[k],
            ) by {
                assert(lower_of(all[k]).subrange(0, 0) =~= Seq::<char>::empty());
                assert(crate::text::contains_at(lower_of(all[k]), lower_of(query@), 0));
            }
            lemma_filter_lines_all(all, pred);
        }
    }
    results
}

/// Dispatch a search over already-loaded file contents as the configuration
/// directs: case-insensitively when `ignore_case` is set, case-sensitively
/// otherwise.
pub fn run_search<'a>(config: &Config, contents: &'a str) -> (results: Vec<&'a str>)
    ensures
        results.deep_view() == if config.ignore_case {
            spec_search_case_insensitive(config.query@, contents@)
        } else {
            spec_search(config.query@, contents@)
        },
{
    if config.ignore_case {
        search_case_insensitive(config.query.as_str(), contents)
    } else {
        search(config.query.as_str(), contents)
    }
}

} // verus!
