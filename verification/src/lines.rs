//! Splitting a text into lines and joining lines back together.
//!
//! A line is the text between line-terminator boundaries, where a terminator
//! is `"\n"` or `"\r\n"` (the `'\r'` belongs to the terminator and is not
//! part of the line); a trailing terminator does not produce a spurious
//! empty final line.  A `'\r'` not followed by `'\n'` is ordinary line text.
//! Joining the lines with `'\n'` therefore reconstructs the text with every
//! terminator written as `"\n"` and up to one trailing terminator dropped
//! (see [`lemma_lines_join_roundtrip`]).

use vstd::prelude::*;

verus! {

use vstd::string::StrSliceExecFns;
use vstd::string::StringExecFns;

/// A finished line with the `'\r'` of a `"\r\n"` terminator removed.
pub open spec fn strip_trailing_cr(line: Seq<char>) -> Seq<char> {
    if line.len() > 0 && line.last() == '\r' {
        line.drop_last()
    } else {
        line
    }
}

/// The lines of `cur + rest`, where `cur` is an already-read partial line
/// standing just before `rest`.
pub open spec fn lines_from(rest: Seq<char>, cur: Seq<char>) -> Seq<Seq<char>>
    decreases rest.len(),
{
    if rest.len() == 0 {
        if cur.len() == 0 {
            Seq::empty()
        } else {
            seq![cur]
        }
    } else if rest[0] == '\n' {
        seq![strip_trailing_cr(cur)] + lines_from(rest.drop_first(), Seq::empty())
    } else {
        lines_from(rest.drop_first(), cur.push(rest[0]))
    }
}

/// The lines of `contents`.
pub open spec fn spec_lines(contents: Seq<char>) -> Seq<Seq<char>> {
    lines_from(contents, Seq::empty())
}

/// The lines joined with a single `'\n'` between consecutive lines and no
/// trailing terminator.
pub open spec fn spec_join(lines: Seq<Seq<char>>) -> Seq<char>
    decreases lines.len(),
{
    if lines.len() == 0 {
        Seq::empty()
    } else if lines.len() == 1 {
        lines[0]
    } else {
        lines[0].push('\n') + spec_join(lines.drop_first())
    }
}

/// `s` with every `"\r\n"` terminator written as `"\n"`.
pub open spec fn canonical_terminators(s: Seq<char>) -> Seq<char>
    decreases s.len(),
{
    if s.len() == 0 {
        Seq::empty()
    } else if s.len() >= 2 && s[0] == '\r' && s[1] == '\n' {
        seq!['\n'] + canonical_terminators(s.subrange(2, s.len() as int))
    } else {
        seq![s[0]] + canonical_terminators(s.drop_first())
    }
}

/// `s` with one trailing `'\n'` dropped, if present.
pub open spec fn drop_trailing_newline(s: Seq<char>) -> Seq<char> {
    if s.len() > 0 && s.last() == '\n' {
        s.drop_last()
    } else {
        s
    }
}

/// Split `contents` into its lines, in order, as borrowed views into
/// `contents`.
pub fn split_lines<'a>(contents: &'a str) -> (r: Vec<&'a str>)
    ensures
        r.deep_view() == spec_lines(contents@),
{
    let n = contents.unicode_len();
    let mut r: Vec<&'a str> = Vec::new();
    proof {
        assert(r.deep_view() =~= Seq::<Seq<char>>::empty());
        assert(contents@.subrange(0, n as int) =~= contents@);
        assert(contents@.subrange(0, 0) =~= Seq::<char>::empty());
        assert(Seq::<Seq<char>>::empty() + spec_lines(contents@) =~= spec_lines(contents@));
    }
    let mut start: usize = 0;
    let mut i: usize = 0;
    while i < n
        invariant
            n == contents@.len(),
            0 <= start <= i <= n,
            spec_lines(contents@) == r.deep_view() + lines_from(
                contents@.subrange(i as int, n as int),
                contents@.subrange(start as int, i as int),
            ),
        decreases n - i,
    {
        let ghost rest = contents@.subrange(i as int, n as int);
        let ghost cur = contents@.subrange(start as int, i as int);
        proof {
            assert(rest[0] == contents@[i as int]);
            assert(rest.drop_first() =~= contents@.subrange(i + 1, n as int));
        }
        let c = contents.get_char(i);
        if c == '\n' {
            let ghost dv0 = r.deep_view();
            let ghost tail_lines = lines_from(
                contents@.subrange(i + 1, n as int),
                Seq::empty(),
            );
            let line = if start < i && contents.get_char(i - 1) == '\r' {
                contents.substring_char(start, i - 1)
            } else {
                contents.substring_char(start, i)
            };
            proof {
                if start < i {
                    assert(cur.last() == contents@[i - 1]);
                    if contents@[i - 1] == '\r' {
                        assert(contents@.subrange(start as int, i - 1) =~= cur.drop_last());
                    }
                }
                assert(line@ == strip_trailing_cr(cur));
            }
            r.push(line);
            proof {
                assert(r.deep_view() =~= dv0.push(strip_trailing_cr(cur)));
                assert(lines_from(rest, cur) == seq![strip_trailing_cr(cur)] + tail_lines);
                assert(contents@.subrange(i + 1, i + 1) =~= Seq::<char>::empty());
                assert(dv0 + (seq![strip_trailing_cr(cur)] + tail_lines) =~= dv0.push(
                    strip_trailing_cr(cur),
                ) + tail_lines);
            }
            start = i + 1;
        } else {
            proof {
                assert(cur.push(contents@[i as int]) =~= contents@.subrange(
                    start as int,
                    i + 1,
                ));
            }
        }
        i += 1;
    }
    proof {
        assert(contents@.subrange(n as int, n as int) =~= Seq::<char>::empty());
    }
    if start < n {
        let ghost dv0 = r.deep_view();
        let line = contents.substring_char(start, n);
        r.push(line);
        proof {
            assert(r.deep_view() =~= dv0.push(contents@.subrange(start as int, n as int)));
            assert(dv0 + lines_from(
                Seq::empty(),
                contents@.subrange(start as int, n as int),
            ) =~= dv0.push(contents@.subrange(start as int, n as int)));
        }
    } else {
        proof {
            assert(contents@.subrange(start as int, n as int) =~= Seq::<char>::empty());
            assert(spec_lines(contents@) =~= r.deep_view());
        }
    }
    r
}

/// `spec_join` over a sequence extended by one line appends a separator
/// (when the sequence was non-empty) and then the line.
proof fn lemma_spec_join_push(lines: Seq<Seq<char>>, line: Seq<char>)
    ensures
        spec_join(lines.push(line)) == if lines.len() == 0 {
            line
        } else {
            spec_join(lines) + seq!['\n'] + line
        },
    decreases lines.len(),
{
    if lines.len() == 0 {
        assert(lines.push(line)[0] == line);
    } else if lines.len() == 1 {
        assert(lines.push(line).drop_first() =~= seq![line]);
        assert(seq![line].len() == 1);
        assert(spec_join(seq![line]) == line);
        assert(lines.push(line)[0] == lines[0]);
        assert(spec_join(lines.push(line)) == lines[0].push('\n') + line);
        assert(lines[0].push('\n') + line =~= lines[0] + seq!['\n'] + line);
    } else {
        lemma_spec_join_push(lines.drop_first(), line);
        assert(lines.push(line).drop_first() =~= lines.drop_first().push(line));
        assert(spec_join(lines.push(line)) == lines[0].push('\n') + spec_join(
            lines.drop_first().push(line),
        ));
        assert(lines[0].push('\n') + (spec_join(lines.drop_first()) + seq!['\n'] + line)
            =~= (lines[0].push('\n') + spec_join(lines.drop_first())) + seq!['\n'] + line);
    }
}

/// Join the given lines with a single `'\n'` between consecutive lines.
pub fn join_lines(lines: &Vec<&str>) -> (r: String)
    ensures
        r@ == spec_join(lines.deep_view()),
{
    let ghost all = lines.deep_view();
    let n = lines.len();
    let mut r = String::new();
    let mut i: usize = 0;
    while i < n
        invariant
            n == lines@.len(),
            all == lines.deep_view(),
            0 <= i <= n,
            i == 0 ==> r@ == Seq::<char>::empty(),
            0 < i < n ==> r@ == spec_join(all.subrange(0, i as int)) + seq!['\n'],
            i == n ==> r@ == spec_join(all.subrange(0, i as int)),
        decreases n - i,
    {
        let ghost r0 = r@;
        r.append(lines[i]);
        proof {
            let prefix = all.subrange(0, i as int);
            lemma_spec_join_push(prefix, all[i as int]);
            assert(prefix.push(all[i as int]) =~= all.subrange(0, i + 1));
            if i > 0 {
                assert(r0 + all[i as int] =~= spec_join(prefix) + seq!['\n'] + all[
                    i as int
                ]);
            }
        }
        i += 1;
        if i < n {
            r.append("\n");
            proof {
                reveal_strlit("\n");
                assert("\n"@ =~= seq!['\n']);
            }
        }
    }
    proof {
        if n == 0 {
            assert(all.subrange(0, 0) =~= all);
        } else {
            assert(all.subrange(0, n as int) =~= all);
        }
    }
    r
}

/// A non-empty text keeps at least one character after terminator
/// normalization.
proof fn lemma_canonical_nonempty(s: Seq<char>)
    requires
        s.len() > 0,
    ensures
        canonical_terminators(s).len() >= 1,
{
}

/// Joining the lines of `cur + rest` gives back `cur` (stripped of a
/// terminator `'\r'` when `rest` opens with `'\n'`) followed by `rest` with
/// its terminators normalized and one trailing terminator dropped (helper
/// for induction over `lines_from`).
proof fn lemma_lines_from_join(rest: Seq<char>, cur: Seq<char>)
    ensures
        spec_join(lines_from(rest, cur)) == if rest.len() > 0 && rest[0] == '\n' {
            strip_trailing_cr(cur) + drop_trailing_newline(canonical_terminators(rest))
        } else {
            cur + drop_trailing_newline(canonical_terminators(rest))
        },
    decreases rest.len(),
{
    if rest.len() == 0 {
        if cur.len() == 0 {
            assert(cur + canonical_terminators(rest) =~= Seq::<char>::empty());
        } else {
            assert(cur + canonical_terminators(rest) =~= cur);
        }
    } else if rest[0] == '\n' {
        let tail = rest.drop_first();
        let stripped = strip_trailing_cr(cur);
        assert(canonical_terminators(rest) == seq![rest[0]] + canonical_terminators(tail));
        if tail.len() == 0 {
            assert(lines_from(rest, cur) == seq![stripped] + lines_from(tail, Seq::empty()));
            assert(seq![stripped] + lines_from(tail, Seq::empty()) =~= seq![stripped]);
            assert(spec_join(seq![stripped]) == stripped);
            assert(canonical_terminators(rest) =~= seq!['\n']);
            assert(drop_trailing_newline(seq!['\n']) =~= Seq::<char>::empty());
            assert(stripped + drop_trailing_newline(canonical_terminators(rest)) =~= stripped);
        } else {
            lemma_lines_from_join(tail, Seq::empty());
            lemma_lines_from_nonempty(tail, Seq::empty());
            lemma_canonical_nonempty(tail);
            let l = lines_from(tail, Seq::empty());
            let joined = lines_from(rest, cur);
            let ct = canonical_terminators(tail);
            assert(joined == seq![stripped] + l);
            assert(joined.len() >= 2);
            assert(joined[0] == stripped);
            assert(joined.drop_first() =~= l);
            assert(spec_join(joined) == stripped.push('\n') + spec_join(l));
            assert(strip_trailing_cr(Seq::<char>::empty()) =~= Seq::<char>::empty());
            assert(Seq::<char>::empty() + drop_trailing_newline(ct) =~= drop_trailing_newline(
                ct,
            ));
            assert(spec_join(l) == drop_trailing_newline(ct));
            assert((seq![rest[0]] + ct).last() == ct.last());
            assert(drop_trailing_newline(seq!['\n'] + ct) =~= seq!['\n']
                + drop_trailing_newline(ct));
            assert(stripped + (seq!['\n'] + drop_trailing_newline(ct)) =~= stripped.push('\n')
                + drop_trailing_newline(ct));
        }
    } else if rest.len() >= 2 && rest[0] == '\r' && rest[1] == '\n' {
        let tail = rest.drop_first();
        lemma_lines_from_join(tail, cur.push('\r'));
        assert(lines_from(rest, cur) == lines_from(tail, cur.push(rest[0])));
        assert(tail[0] == '\n');
        assert(strip_trailing_cr(cur.push('\r')) =~= cur);
        assert(tail.drop_first() =~= rest.subrange(2, rest.len() as int));
        assert(canonical_terminators(tail) == seq![tail[0]] + canonical_terminators(
            tail.drop_first(),
        ));
        assert(canonical_terminators(rest) == seq!['\n'] + canonical_terminators(
            rest.subrange(2, rest.len() as int),
        ));
        assert(seq![tail[0]] =~= seq!['\n']);
        assert(canonical_terminators(rest) == canonical_terminators(tail));
    } else {
        let tail = rest.drop_first();
        lemma_lines_from_join(tail, cur.push(rest[0]));
        assert(lines_from(rest, cur) == lines_from(tail, cur.push(rest[0])));
        assert(canonical_terminators(rest) == seq![rest[0]] + canonical_terminators(tail));
        if tail.len() > 0 && tail[0] == '\n' {
            assert(rest[0] != '\r');
            assert(strip_trailing_cr(cur.push(rest[0])) =~= cur.push(rest[0]));
        }
        if tail.len() == 0 {
            assert(canonical_terminators(rest) =~= seq![rest[0]]);
            assert(drop_trailing_newline(seq![rest[0]]) =~= seq![rest[0]]);
            assert(cur + seq![rest[0]] =~= cur.push(rest[0]));
            assert(cur.push(rest[0]) + drop_trailing_newline(canonical_terminators(tail))
                =~= cur.push(rest[0]));
        } else {
            lemma_canonical_nonempty(tail);
            let ct = canonical_terminators(tail);
            assert((seq![rest[0]] + ct).last() == ct.last());
            assert(drop_trailing_newline(seq![rest[0]] + ct) =~= seq![rest[0]]
                + drop_trailing_newline(ct));
            assert(cur + (seq![rest[0]] + drop_trailing_newline(ct)) =~= cur.push(rest[0])
                + drop_trailing_newline(ct));
        }
    }
}

/// A text with at least one character, or a non-empty partial line, yields
/// at least one line.
proof fn lemma_lines_from_nonempty(rest: Seq<char>, cur: Seq<char>)
    requires
        rest.len() > 0 || cur.len() > 0,
    ensures
        lines_from(rest, cur).len() >= 1,
    decreases rest.len(),
{
    if rest.len() == 0 {
    } else if rest[0] == '\n' {
    } else {
        lemma_lines_from_nonempty(rest.drop_first(), cur.push(rest[0]));
    }
}

/// Law: splitting a text into lines and rejoining them with the line
/// terminator reconstructs the text, with every `"\r\n"` terminator written
/// as `"\n"` and up to one trailing terminator dropped.
pub proof fn lemma_lines_join_roundtrip(contents: Seq<char>)
    ensures
        spec_join(spec_lines(contents)) == drop_trailing_newline(
            canonical_terminators(contents),
        ),
{
    lemma_lines_from_join(contents, Seq::empty());
    assert(strip_trailing_cr(Seq::<char>::empty()) =~= Seq::<char>::empty());
    assert(Seq::<char>::empty() + drop_trailing_newline(canonical_terminators(contents))
        =~= drop_trailing_newline(canonical_terminators(contents)));
}

} // verus!
