//! Fragment packing: the greedy selection of a maximal run of whole lines
//! within the unit budget, progress accounting, and grouped-digit
//! formatting for the progress display.

use vstd::prelude::*;
use vstd::string::StringExecFns;
use crate::state::{
    AppState,
    concat_lines,
    lemma_sum_units_nonneg,
    lemma_sum_units_split,
    sum_units,
};

verus! {

/// End index of the greedy run that begins at `i` with `used` units already
/// taken: lines are appended in order while the running total stays within
/// `max`.
pub open spec fn greedy_end(units: Seq<usize>, max: int, i: int, used: int) -> int
    decreases units.len() - i,
{
    if i < 0 || i >= units.len() {
        i
    } else if used + units[i] > max {
        i
    } else {
        greedy_end(units, max, i + 1, used + units[i])
    }
}

/// First line not part of the fragment that starts at `start`.  A first
/// line larger than the whole budget is deliberately taken alone — the
/// policy that guarantees forward progress while never splitting a line.
pub open spec fn frag_end(s: AppState, start: int) -> int {
    if 0 <= start < s.line_units@.len() && s.line_units@[start] > s.max_unit {
        start + 1
    } else {
        greedy_end(s.line_units@, s.max_unit as int, start, 0)
    }
}

/// Unit size of the fragment that starts at `start`.
pub open spec fn frag_units(s: AppState, start: int) -> int {
    sum_units(s.line_units@.subrange(start, frag_end(s, start)))
}

/// Text of the fragment that starts at `start`: exactly the lines
/// `[start, frag_end)`, concatenated.
pub open spec fn frag_text(s: AppState, start: int) -> Seq<char> {
    concat_lines(s.lines.deep_view().subrange(start, frag_end(s, start)))
}

/// Units consumed by the lines before `k`, the cursor clamped to the
/// document's end.
pub open spec fn consumed_units(s: AppState, k: int) -> int {
    sum_units(
        s.line_units@.take(
            if k <= s.line_units@.len() {
                k
            } else {
                s.line_units@.len() as int
            },
        ),
    )
}

pub proof fn lemma_greedy_end_in_range(units: Seq<usize>, max: int, i: int, used: int)
    requires
        0 <= i <= units.len(),
    ensures
        i <= greedy_end(units, max, i, used) <= units.len(),
    decreases units.len() - i,
{
    if i < units.len() && used + units[i] <= max {
        lemma_greedy_end_in_range(units, max, i + 1, used + units[i]);
    }
}

/// A sum over a part of a sequence is bounded by the sum over the whole.
pub proof fn lemma_sum_units_subrange_le(units: Seq<usize>, a: int, b: int)
    requires
        0 <= a <= b <= units.len(),
    ensures
        0 <= sum_units(units.subrange(a, b)) <= sum_units(units),
{
    lemma_sum_units_split(units, a);
    lemma_sum_units_nonneg(units.take(a));
    lemma_sum_units_split(units.skip(a), b - a);
    assert(units.skip(a).take(b - a) =~= units.subrange(a, b));
    lemma_sum_units_nonneg(units.skip(a).skip(b - a));
    lemma_sum_units_nonneg(units.subrange(a, b));
}

/// Extending a subrange by one element adds that element to its sum.
proof fn lemma_sum_units_subrange_step(units: Seq<usize>, a: int, b: int)
    requires
        0 <= a <= b < units.len(),
    ensures
        sum_units(units.subrange(a, b + 1)) == sum_units(units.subrange(a, b)) + units[b],
{
    assert(units.subrange(a, b + 1).drop_last() =~= units.subrange(a, b));
    assert(units.subrange(a, b + 1).last() == units[b]);
}

/// The fragment at a cursor is a function of the fixed document and
/// budget alone: two states that agree on the lines, the line sizes and
/// the budget yield the same fragment at every start, whatever their
/// cursors or last deliveries.  `build_fragment`'s contract determines
/// its result by these spec functions and takes the state immutably, so
/// repeated calls with identical arguments return identical output and
/// never mutate the document state.
pub proof fn lemma_fragment_depends_only_on_document(s1: AppState, s2: AppState, start: int)
    requires
        s1.lines@ == s2.lines@,
        s1.line_units@ == s2.line_units@,
        s1.max_unit == s2.max_unit,
    ensures
        frag_end(s1, start) == frag_end(s2, start),
        frag_units(s1, start) == frag_units(s2, start),
        frag_text(s1, start) == frag_text(s2, start),
{
    assert(s1.lines.deep_view() =~= s2.lines.deep_view());
}

/// The greedy scan shared by `decide_fragment` and `build_fragment`:
/// count of lines taken from `start` and their total units.
fn fragment_span(state: &AppState, start: usize) -> (r: (usize, usize))
    requires
        state.wf(),
        start <= state.lines@.len(),
    ensures
        start + r.0 == frag_end(*state, start as int),
        start + r.0 <= state.lines@.len(),
        r.1 == frag_units(*state, start as int),
        start < state.lines@.len() ==> r.0 >= 1,
        (start == state.lines@.len() || state.line_units@[start as int] <= state.max_unit)
            ==> r.1 <= state.max_unit,
{
    let n = state.lines.len();
    if start < n && state.line_units[start] > state.max_unit {
        // The first candidate line alone exceeds the budget: take it alone,
        // so that the cursor always advances.
        let u = state.line_units[start];
        proof {
            let units = state.line_units@;
            assert(units.subrange(start as int, start as int + 1) =~= seq![units[start as int]]);
            crate::state::lemma_sum_units_singleton(units[start as int]);
        }
        return (1, u);
    }
    let ghost units = state.line_units@;
    let ghost max = state.max_unit as int;
    let mut idx = start;
    let mut used: usize = 0;
    while idx < n && used + state.line_units[idx] <= state.max_unit
        invariant
            state.wf(),
            start <= idx <= n,
            n == state.lines@.len(),
            units == state.line_units@,
            max == state.max_unit as int,
            used == sum_units(units.subrange(start as int, idx as int)),
            used <= state.max_unit,
            greedy_end(units, max, start as int, 0) == greedy_end(
                units,
                max,
                idx as int,
                used as int,
            ),
            idx < n ==> used + units[idx as int] <= usize::MAX,
        decreases n - idx,
    {
        proof {
            lemma_sum_units_subrange_step(units, start as int, idx as int);
        }
        used = used + state.line_units[idx];
        idx = idx + 1;
        proof {
            if idx < n {
                lemma_sum_units_subrange_step(units, start as int, idx as int);
                lemma_sum_units_subrange_le(units, start as int, idx as int + 1);
            }
        }
    }
    proof {
        assert(greedy_end(units, max, idx as int, used as int) == idx as int);
        if !(start < state.lines@.len() && state.line_units@[start as int] > state.max_unit) {
            assert(frag_end(*state, start as int) == greedy_end(units, max, start as int, 0));
        }
        if start < n {
            // the loop admits the first line, so at least one line is taken
            assert(greedy_end(units, max, start as int, 0) == greedy_end(
                units,
                max,
                start as int + 1,
                units[start as int] as int,
            ));
            lemma_greedy_end_in_range(units, max, start as int + 1, units[start as int] as int);
        }
    }
    (idx - start, used)
}

/// How many whole lines fit in the next fragment, starting at the current
/// cursor, and their total unit size.
pub fn decide_fragment(state: &AppState) -> (r: (usize, usize))
    requires
        state.wf(),
    ensures
        state.curr_index + r.0 == frag_end(*state, state.curr_index as int),
        r.1 == frag_units(*state, state.curr_index as int),
        state.curr_index < state.lines@.len() ==> r.0 >= 1,
{
    fragment_span(state, state.curr_index)
}

/// Concatenate the `count` lines that start at `start`.
pub fn build_fragment_text(lines: &Vec<String>, start: usize, count: usize) -> (r: String)
    requires
        start + count <= lines@.len(),
    ensures
        r@ == concat_lines(lines.deep_view().subrange(start as int, start as int + count as int)),
{
    let ghost dv = lines.deep_view();
    let n = lines.len();
    let mut out = String::new();
    let mut k: usize = 0;
    while k < count
        invariant
            k <= count,
            n == lines@.len(),
            start + count <= n,
            dv == lines.deep_view(),
            out@ == concat_lines(dv.subrange(start as int, start as int + k as int)),
        decreases count - k,
    {
        out.append(lines[start + k].as_str());
        proof {
            let a = start as int;
            let b = start as int + k as int;
            assert(dv.subrange(a, b + 1).drop_last() =~= dv.subrange(a, b));
            assert(dv.subrange(a, b + 1).last() == dv[b]);
            assert(dv[b] == lines@[b]@);
        }
        k = k + 1;
    }
    out
}

/// Build the fragment that starts at `start_index`: the maximal run of
/// whole lines whose sizes fit the budget (or a single oversized line,
/// taken alone).  Returns its text, its unit size, and the index of the
/// first line left out.
///
/// The result is a function of the document state and `start_index` alone,
/// fully determined by this contract, and the state is never mutated:
/// repeated calls with the same arguments return identical values.
pub fn build_fragment(state: &AppState, start_index: usize) -> (r: (String, usize, usize))
    requires
        state.wf(),
        start_index <= state.lines@.len(),
    ensures
        r.2 == frag_end(*state, start_index as int),
        r.1 == frag_units(*state, start_index as int),
        r.0@ == frag_text(*state, start_index as int),
        start_index <= r.2 <= state.lines@.len(),
        start_index < state.lines@.len() ==> r.2 > start_index,
        (start_index == state.lines@.len() || state.line_units@[start_index as int]
            <= state.max_unit) ==> r.1 <= state.max_unit,
{
    let n = state.lines.len();
    let (count, units) = fragment_span(state, start_index);
    proof {
        assert(start_index + count <= n);
    }
    let text = build_fragment_text(&state.lines, start_index, count);
    (text, units, start_index + count)
}

/// Units consumed before `curr_index`: the sum of the line sizes up to the
/// cursor (clamped to the document's end, as a cursor past it consumes
/// everything).
pub fn calc_consumed_units(state: &AppState, curr_index: usize) -> (r: usize)
    requires
        state.wf(),
    ensures
        r == consumed_units(*state, curr_index as int),
{
    let n = state.line_units.len();
    let stop = if curr_index < n {
        curr_index
    } else {
        n
    };
    let ghost units = state.line_units@;
    let mut total: usize = 0;
    let mut i: usize = 0;
    while i < stop
        invariant
            state.wf(),
            i <= stop <= n,
            n == state.line_units@.len(),
            units == state.line_units@,
            total == sum_units(units.take(i as int)),
            total <= state.total_units,
        decreases stop - i,
    {
        proof {
            crate::state::lemma_sum_units_take_step(units, i as int);
            lemma_sum_units_split(units, i as int + 1);
            lemma_sum_units_nonneg(units.skip(i as int + 1));
            assert(units.take(i as int + 1).subrange(0, i as int + 1) =~= units.take(i as int + 1));
        }
        total = total + state.line_units[i];
        i = i + 1;
    }
    total
}

/// The decimal digit for a value below ten.
pub open spec fn digit_char(d: int) -> char {
    if d == 0 {
        '0'
    } else if d == 1 {
        '1'
    } else if d == 2 {
        '2'
    } else if d == 3 {
        '3'
    } else if d == 4 {
        '4'
    } else if d == 5 {
        '5'
    } else if d == 6 {
        '6'
    } else if d == 7 {
        '7'
    } else if d == 8 {
        '8'
    } else {
        '9'
    }
}

/// The decimal digits of `n`, most significant first, no leading zeros
/// (except for `n == 0` itself).
pub open spec fn dec_rep(n: nat) -> Seq<char>
    decreases n,
{
    if n < 10 {
        seq![digit_char(n as int)]
    } else {
        dec_rep(n / 10) + seq![digit_char((n % 10) as int)]
    }
}

/// A three-digit group, zero-padded: the last three decimal digits of `m`.
pub open spec fn group3(m: nat) -> Seq<char> {
    seq![digit_char((m / 100 % 10) as int), digit_char((m / 10 % 10) as int), digit_char(
        (m % 10) as int,
    )]
}

/// The decimal digits of `n` with `'_'` between three-digit groups,
/// counted from the least significant digit; no grouping below 1000.
pub open spec fn grouped_rep(n: nat) -> Seq<char>
    decreases n,
{
    if n < 1000 {
        dec_rep(n)
    } else {
        grouped_rep(n / 1000) + seq!['_'] + group3(n % 1000)
    }
}

/// Append the digit `d`.
fn push_digit(out: &mut String, d: usize)
    requires
        d < 10,
    ensures
        final(out)@ == old(out)@ + seq![digit_char(d as int)],
{
    proof {
        reveal_strlit("0");
        reveal_strlit("1");
        reveal_strlit("2");
        reveal_strlit("3");
        reveal_strlit("4");
        reveal_strlit("5");
        reveal_strlit("6");
        reveal_strlit("7");
        reveal_strlit("8");
        reveal_strlit("9");
    }
    if d == 0 {
        out.append("0");
    } else if d == 1 {
        out.append("1");
    } else if d == 2 {
        out.append("2");
    } else if d == 3 {
        out.append("3");
    } else if d == 4 {
        out.append("4");
    } else if d == 5 {
        out.append("5");
    } else if d == 6 {
        out.append("6");
    } else if d == 7 {
        out.append("7");
    } else if d == 8 {
        out.append("8");
    } else {
        out.append("9");
    }
    proof {
        assert(final(out)@ =~= old(out)@ + seq![digit_char(d as int)]);
    }
}

/// Append the decimal digits of `n`.
fn push_dec(out: &mut String, n: usize)
    ensures
        final(out)@ == old(out)@ + dec_rep(n as nat),
    decreases n,
{
    if n < 10 {
        push_digit(out, n);
    } else {
        push_dec(out, n / 10);
        push_digit(out, n % 10);
        proof {
            assert(final(out)@ =~= old(out)@ + dec_rep(n as nat));
        }
    }
}

/// Append the last three decimal digits of `m`, zero-padded.
fn push_group3(out: &mut String, m: usize)
    requires
        m < 1000,
    ensures
        final(out)@ == old(out)@ + group3(m as nat),
{
    push_digit(out, m / 100 % 10);
    push_digit(out, m / 10 % 10);
    push_digit(out, m % 10);
    proof {
        assert(final(out)@ =~= old(out)@ + group3(m as nat));
    }
}

/// Append the grouped decimal form of `n`.
fn push_grouped(out: &mut String, n: usize)
    ensures
        final(out)@ == old(out)@ + grouped_rep(n as nat),
    decreases n,
{
    if n < 1000 {
        push_dec(out, n);
    } else {
        push_grouped(out, n / 1000);
        out.append("_");
        push_group3(out, n % 1000);
        proof {
            reveal_strlit("_");
            assert("_"@ =~= seq!['_']);
            assert(final(out)@ =~= old(out)@ + grouped_rep(n as nat));
        }
    }
}

/// Render `n` in decimal with `'_'` inserted between groups of three
/// digits, counted from the least significant digit; values below 1000
/// are not grouped.
pub fn format_with_underscore(n: usize) -> (r: String)
    ensures
        r@ == grouped_rep(n as nat),
{
    let mut out = String::new();
    push_grouped(&mut out, n);
    proof {
        assert(out@ =~= grouped_rep(n as nat));
    }
    out
}

} // verus!
