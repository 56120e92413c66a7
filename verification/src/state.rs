//! Document state: line splitting, per-line size metrics, and the
//! aggregate that the transfer state machine operates on.

use vstd::prelude::*;
use vstd::string::StrSliceExecFns;

verus! {

/// The unit system in which line sizes and the fragment budget are measured.
#[derive(Clone, Copy, Debug, PartialEq, Eq, Structural)]
pub enum Unit {
    /// Unicode scalar values.
    Chars,
    /// Bytes of the clipboard's wide-character form: UTF-16 code units, two
    /// bytes each.
    Bytes,
}

/// UTF-16 code units needed to encode one character: one unit for a scalar
/// value below 0x10000, two for the rest.
pub open spec fn char_utf16_width(c: char) -> nat {
    if (c as u32) < 0x10000 {
        1nat
    } else {
        2nat
    }
}

/// Number of UTF-16 code units needed to encode the characters of `s`.
pub open spec fn utf16_units(s: Seq<char>) -> nat
    decreases s.len(),
{
    if s.len() == 0 {
        0
    } else {
        utf16_units(s.drop_last()) + char_utf16_width(s.last())
    }
}

/// Size of one line under the chosen unit system: its character count, or
/// twice its UTF-16 code-unit count.
pub open spec fn line_size(s: Seq<char>, unit: Unit) -> nat {
    match unit {
        Unit::Chars => s.len(),
        Unit::Bytes => 2 * utf16_units(s),
    }
}

/// The characters of all lines, in order.
pub open spec fn concat_lines(lines: Seq<Seq<char>>) -> Seq<char>
    decreases lines.len(),
{
    if lines.len() == 0 {
        Seq::empty()
    } else {
        concat_lines(lines.drop_last()) + lines.last()
    }
}

/// `lines` is exactly the decomposition of `text` at each `'\n'`, the
/// terminator kept on the piece it ends: the pieces concatenate back to
/// `text`, none is empty, `'\n'` occurs only as a piece's last character,
/// and every piece but the last ends with `'\n'`.  These four conditions
/// determine `lines` uniquely.
pub open spec fn is_line_split(text: Seq<char>, lines: Seq<Seq<char>>) -> bool {
    &&& concat_lines(lines) == text
    &&& forall|k: int| 0 <= k < lines.len() ==> (#[trigger] lines[k]).len() > 0
    &&& forall|k: int, j: int|
        0 <= k < lines.len() && 0 <= j < lines[k].len() - 1 ==> #[trigger] lines[k][j] != '\n'
    &&& forall|k: int| 0 <= k < lines.len() - 1 ==> (#[trigger] lines[k]).last() == '\n'
}

/// Sum of a sequence of sizes.
pub open spec fn sum_units(units: Seq<usize>) -> int
    decreases units.len(),
{
    if units.len() == 0 {
        0
    } else {
        sum_units(units.drop_last()) + units.last()
    }
}

pub proof fn lemma_utf16_units_bound(s: Seq<char>)
    ensures
        utf16_units(s) <= 2 * s.len(),
    decreases s.len(),
{
    if s.len() > 0 {
        lemma_utf16_units_bound(s.drop_last());
    }
}

pub proof fn lemma_line_size_bound(s: Seq<char>, unit: Unit)
    ensures
        line_size(s, unit) <= 4 * s.len(),
{
    lemma_utf16_units_bound(s);
}

pub proof fn lemma_sum_units_nonneg(units: Seq<usize>)
    ensures
        sum_units(units) >= 0,
    decreases units.len(),
{
    if units.len() > 0 {
        lemma_sum_units_nonneg(units.drop_last());
    }
}

/// One step of a prefix sum: adding element `i` extends the sum of the
/// first `i` elements.
pub proof fn lemma_sum_units_take_step(units: Seq<usize>, i: int)
    requires
        0 <= i < units.len(),
    ensures
        sum_units(units.take(i + 1)) == sum_units(units.take(i)) + units[i],
{
    assert(units.take(i + 1).drop_last() =~= units.take(i));
    assert(units.take(i + 1).last() == units[i]);
}

/// A sum splits at any cut point.
pub proof fn lemma_sum_units_split(units: Seq<usize>, k: int)
    requires
        0 <= k <= units.len(),
    ensures
        sum_units(units) == sum_units(units.take(k)) + sum_units(units.skip(k)),
    decreases units.len() - k,
{
    if k == units.len() {
        assert(units.take(k) =~= units);
        assert(units.skip(k) =~= Seq::<usize>::empty());
    } else {
        lemma_sum_units_split(units, k + 1);
        lemma_sum_units_take_step(units, k);
        assert(units.skip(k).drop_first() =~= units.skip(k + 1));
        assert(units.skip(k) =~= seq![units[k]] + units.skip(k + 1));
        lemma_sum_units_cons(units[k], units.skip(k + 1));
        assert(units.take(k + 1) =~= units.take(k).push(units[k]));
    }
}

/// `concat_lines` also unfolds from the front.
pub proof fn lemma_concat_lines_first(lines: Seq<Seq<char>>)
    requires
        lines.len() > 0,
    ensures
        concat_lines(lines) == lines.first() + concat_lines(lines.drop_first()),
    decreases lines.len(),
{
    if lines.len() == 1 {
        assert(lines.drop_last() =~= Seq::<Seq<char>>::empty());
        assert(lines.drop_first() =~= Seq::<Seq<char>>::empty());
        assert(Seq::<char>::empty() + lines.last() =~= lines.last());
        assert(lines.first() + Seq::<char>::empty() =~= lines.first());
    } else {
        lemma_concat_lines_first(lines.drop_last());
        assert(lines.drop_last().first() == lines.first());
        assert(lines.drop_last().drop_first() =~= lines.drop_first().drop_last());
        assert(lines.drop_first().last() == lines.last());
        assert((lines.first() + concat_lines(lines.drop_first().drop_last())) + lines.last()
            =~= lines.first() + (concat_lines(lines.drop_first().drop_last()) + lines.last()));
    }
}

pub proof fn lemma_utf16_units_take_step(s: Seq<char>, i: int)
    requires
        0 <= i < s.len(),
    ensures
        utf16_units(s.take(i + 1)) == utf16_units(s.take(i)) + char_utf16_width(s[i]),
{
    assert(s.take(i + 1).drop_last() =~= s.take(i));
    assert(s.take(i + 1).last() == s[i]);
}

/// The code units of a prefix never exceed those of the whole sequence.
pub proof fn lemma_utf16_units_prefix(s: Seq<char>, k: int)
    requires
        0 <= k <= s.len(),
    ensures
        utf16_units(s.take(k)) <= utf16_units(s),
    decreases s.len() - k,
{
    if k == s.len() {
        assert(s.take(k) =~= s);
    } else {
        lemma_utf16_units_take_step(s, k);
        lemma_utf16_units_prefix(s, k + 1);
    }
}

/// Each line's characters are a part of the concatenation.
pub proof fn lemma_line_len_le_concat(lines: Seq<Seq<char>>, i: int)
    requires
        0 <= i < lines.len(),
    ensures
        lines[i].len() <= concat_lines(lines).len(),
    decreases lines.len(),
{
    if i == lines.len() - 1 {
        assert(lines.last() == lines[i]);
    } else {
        lemma_line_len_le_concat(lines.drop_last(), i);
        assert(lines.drop_last()[i] == lines[i]);
    }
}

/// A text has only one line decomposition: the four conditions of
/// `is_line_split` pin the lines completely, so the round trip between a
/// text and its lines loses nothing and is unambiguous.
pub proof fn lemma_line_split_unique(text: Seq<char>, l1: Seq<Seq<char>>, l2: Seq<Seq<char>>)
    requires
        is_line_split(text, l1),
        is_line_split(text, l2),
    ensures
        l1 == l2,
    decreases l1.len(),
{
    if l1.len() == 0 {
        if l2.len() > 0 {
            lemma_line_len_le_concat(l2, 0);
            assert(false);
        }
        assert(l1 =~= l2);
    } else {
        if l2.len() == 0 {
            lemma_line_len_le_concat(l1, 0);
            assert(false);
        }
        lemma_concat_lines_first(l1);
        lemma_concat_lines_first(l2);
        let n1 = l1[0].len() as int;
        let n2 = l2[0].len() as int;
        assert(l1[0] =~= text.take(n1));
        assert(l2[0] =~= text.take(n2));
        lemma_line_split_first_len(text, l1, l2);
        lemma_line_split_first_len(text, l2, l1);
        assert(n1 == n2);
        assert(l1[0] == l2[0]);
        let rest = text.skip(n1);
        assert(concat_lines(l1.drop_first()) =~= rest);
        assert(concat_lines(l2.drop_first()) =~= rest);
        lemma_line_split_drop_first(text, l1);
        lemma_line_split_drop_first(text, l2);
        lemma_line_split_unique(rest, l1.drop_first(), l2.drop_first());
        assert forall|i: int| 0 <= i < l1.len() implies l1[i] == l2[i] by {
            if i > 0 {
                assert(l1[i] == l1.drop_first()[i - 1]);
                assert(l2[i] == l2.drop_first()[i - 1]);
            }
        }
        assert(l1 =~= l2);
    }
}

/// The first line of one decomposition is no shorter than that of
/// another: its end is forced by the first `'\n'` (or the text's end).
proof fn lemma_line_split_first_len(text: Seq<char>, l1: Seq<Seq<char>>, l2: Seq<Seq<char>>)
    requires
        is_line_split(text, l1),
        is_line_split(text, l2),
        l1.len() > 0,
        l2.len() > 0,
    ensures
        l1[0].len() >= l2[0].len(),
{
    lemma_concat_lines_first(l1);
    lemma_concat_lines_first(l2);
    let n1 = l1[0].len() as int;
    let n2 = l2[0].len() as int;
    if n1 < n2 {
        // position n1 - 1 is interior to l2's first line, so it is not a
        // terminator there
        assert(l2[0][n1 - 1] != '\n');
        assert(l2[0][n1 - 1] == text[n1 - 1]);
        if l1.len() > 1 {
            // but l1's first line ends with one
            assert(l1[0].last() == '\n');
            assert(l1[0][n1 - 1] == text[n1 - 1]);
            assert(false);
        } else {
            // l1 is a single line, so the text is exactly that line and
            // cannot contain the longer first line of l2
            assert(l1.drop_first() =~= Seq::<Seq<char>>::empty());
            assert(text.len() == n1);
            lemma_line_len_le_concat(l2, 0);
            assert(false);
        }
    }
}

/// Dropping the first line of a decomposition leaves a decomposition of
/// the rest of the text.
proof fn lemma_line_split_drop_first(text: Seq<char>, lines: Seq<Seq<char>>)
    requires
        is_line_split(text, lines),
        lines.len() > 0,
    ensures
        is_line_split(text.skip(lines[0].len() as int), lines.drop_first()),
{
    lemma_concat_lines_first(lines);
    let rest = text.skip(lines[0].len() as int);
    let dropped = lines.drop_first();
    assert(concat_lines(dropped) =~= rest);
    assert forall|k: int| 0 <= k < dropped.len() implies (#[trigger] dropped[k]).len() > 0 by {
        assert(dropped[k] == lines[k + 1]);
    }
    assert forall|k: int, j: int|
        0 <= k < dropped.len() && 0 <= j < dropped[k].len() - 1 implies #[trigger] dropped[k][j]
        != '\n' by {
        assert(dropped[k] == lines[k + 1]);
        assert(lines[k + 1][j] != '\n');
    }
    assert forall|k: int| 0 <= k < dropped.len() - 1 implies (#[trigger] dropped[k]).last()
        == '\n' by {
        assert(dropped[k] == lines[k + 1]);
        assert(lines[k + 1].last() == '\n');
    }
}

/// The sizes of a line decomposition sum to at most four times the length
/// of the text they decompose.
pub proof fn lemma_sum_line_sizes_bound(lines: Seq<Seq<char>>, units: Seq<usize>, unit: Unit)
    requires
        units.len() == lines.len(),
        forall|i: int| 0 <= i < lines.len() ==> units[i] == line_size(#[trigger] lines[i], unit),
    ensures
        sum_units(units) <= 4 * concat_lines(lines).len(),
    decreases lines.len(),
{
    if lines.len() > 0 {
        lemma_sum_line_sizes_bound(lines.drop_last(), units.drop_last(), unit);
        lemma_line_size_bound(lines.last(), unit);
        assert(units.last() == line_size(lines[lines.len() - 1], unit));
    }
}

pub proof fn lemma_sum_units_singleton(u: usize)
    ensures
        sum_units(seq![u]) == u,
{
    lemma_sum_units_cons(u, Seq::<usize>::empty());
    assert(seq![u] + Seq::<usize>::empty() =~= seq![u]);
}

/// Prepending one element adds it to the sum.
pub proof fn lemma_sum_units_cons(u: usize, rest: Seq<usize>)
    ensures
        sum_units(seq![u] + rest) == u + sum_units(rest),
    decreases rest.len(),
{
    if rest.len() == 0 {
        assert((seq![u] + rest).drop_last() =~= Seq::<usize>::empty());
        assert((seq![u] + rest).last() == u);
        assert(sum_units((seq![u] + rest).drop_last()) == 0);
    } else {
        lemma_sum_units_cons(u, rest.drop_last());
        assert((seq![u] + rest).drop_last() =~= seq![u] + rest.drop_last());
        assert((seq![u] + rest).last() == rest.last());
    }
}

/// Decompose `text` into lines, each keeping its terminating `'\n'`; a final
/// piece without a terminator is kept as the last line.  Empty input yields
/// no lines.
pub fn split_lines_with_terminator(text: &str) -> (lines: Vec<String>)
    ensures
        is_line_split(text@, lines.deep_view()),
{
    let n = text.unicode_len();
    let mut lines: Vec<String> = Vec::new();
    let mut start: usize = 0;
    let mut i: usize = 0;
    while i < n
        invariant
            start <= i <= n,
            n == text@.len(),
            concat_lines(lines.deep_view()) == text@.take(start as int),
            forall|k: int| 0 <= k < lines@.len() ==> (#[trigger] lines.deep_view()[k]).len() > 0,
            forall|k: int| 0 <= k < lines@.len() ==> (#[trigger] lines.deep_view()[k]).last() == '\n',
            forall|k: int, j: int|
                0 <= k < lines@.len() && 0 <= j < lines.deep_view()[k].len() - 1
                    ==> #[trigger] lines.deep_view()[k][j] != '\n',
            forall|j: int| start <= j < i ==> text@[j] != '\n',
        decreases n - i,
    {
        let c = text.get_char(i);
        if c == '\n' {
            let ghost prev = lines.deep_view();
            let piece = text.substring_char(start, i + 1);
            lines.push(piece.to_owned());
            proof {
                assert(lines.deep_view() =~= prev.push(piece@));
                assert(prev.push(piece@).drop_last() =~= prev);
                assert(concat_lines(lines.deep_view()) == concat_lines(prev) + piece@);
                assert(text@.take(start as int) + text@.subrange(start as int, i + 1) =~= text@
                    .take(i + 1));
            }
            start = i + 1;
        }
        i = i + 1;
    }
    if start < n {
        let ghost prev = lines.deep_view();
        let piece = text.substring_char(start, n);
        lines.push(piece.to_owned());
        proof {
            assert(lines.deep_view() =~= prev.push(piece@));
            assert(prev.push(piece@).drop_last() =~= prev);
            assert(concat_lines(lines.deep_view()) == concat_lines(prev) + piece@);
            assert(text@.take(start as int) + text@.subrange(start as int, n as int) =~= text@.take(
                n as int,
            ));
        }
    }
    proof {
        assert(text@.take(n as int) =~= text@);
    }
    lines
}

/// Count the UTF-16 code units of `s` by summing each character's width.
pub fn utf16_len(s: &str) -> (r: usize)
    requires
        2 * utf16_units(s@) <= usize::MAX,
    ensures
        r == utf16_units(s@),
{
    let n = s.unicode_len();
    let mut total: usize = 0;
    let mut i: usize = 0;
    while i < n
        invariant
            i <= n,
            n == s@.len(),
            2 * utf16_units(s@) <= usize::MAX,
            total == utf16_units(s@.take(i as int)),
        decreases n - i,
    {
        let c = s.get_char(i);
        let w: usize = if (c as u32) < 0x10000 {
            1
        } else {
            2
        };
        proof {
            lemma_utf16_units_take_step(s@, i as int);
            lemma_utf16_units_prefix(s@, i + 1);
        }
        total = total + w;
        i = i + 1;
    }
    proof {
        assert(s@.take(n as int) =~= s@);
    }
    total
}

/// Measure every line under the chosen unit system.
pub fn compute_line_units(lines: &Vec<String>, unit: Unit) -> (units: Vec<usize>)
    requires
        forall|i: int|
            0 <= i < lines@.len() ==> line_size(#[trigger] lines@[i]@, unit) <= usize::MAX,
    ensures
        units@.len() == lines@.len(),
        forall|i: int| 0 <= i < lines@.len() ==> units@[i] == line_size(#[trigger] lines@[i]@, unit),
{
    let mut units: Vec<usize> = Vec::new();
    let mut i: usize = 0;
    while i < lines.len()
        invariant
            i <= lines@.len(),
            units@.len() == i,
            forall|i: int|
                0 <= i < lines@.len() ==> line_size(#[trigger] lines@[i]@, unit) <= usize::MAX,
            forall|k: int| 0 <= k < i ==> units@[k] == line_size(#[trigger] lines@[k]@, unit),
        decreases lines@.len() - i,
    {
        let line: &String = &lines[i];
        let u: usize = match unit {
            Unit::Chars => line.as_str().unicode_len(),
            Unit::Bytes => {
                proof {
                    assert(line_size(lines@[i as int]@, unit) == 2 * utf16_units(line@));
                }
                let cu = utf16_len(line.as_str());
                cu * 2
            },
        };
        units.push(u);
        i = i + 1;
    }
    units
}

/// The whole state of one transfer: the fixed document (lines and their
/// sizes), the fixed configuration, and the two values the state machine
/// mutates (`curr_index` and `prev_contents`).
pub struct AppState {
    /// The decoded input text the lines were split from.
    pub input_text: String,
    /// The document's lines, each keeping its terminator; fixed after
    /// construction.
    pub lines: Vec<String>,
    /// Size of each line under `unit`; parallel to `lines`.
    pub line_units: Vec<usize>,
    /// Sum of `line_units`.
    pub total_units: usize,
    /// Budget for one fragment.
    pub max_unit: usize,
    /// The unit system sizes are measured in.
    pub unit: Unit,
    /// The content most recently delivered to the clipboard sink; replayed
    /// verbatim on a "prev" decision.
    pub prev_contents: String,
    /// Index of the next line not yet delivered.
    pub curr_index: usize,
    /// Whether the input came from a named file (enables the footer phase).
    pub from_file: bool,
    /// Human-readable origin name, if any.
    pub input_file_name: Option<String>,
}

impl AppState {
    /// The internal invariant: sizes are parallel to lines and measured
    /// under `unit`, `total_units` is their sum, and the cursor stays
    /// within the document.
    pub open spec fn wf(self) -> bool {
        &&& self.line_units@.len() == self.lines@.len()
        &&& forall|i: int|
            0 <= i < self.lines@.len() ==> self.line_units@[i] == line_size(
                #[trigger] self.lines@[i]@,
                self.unit,
            )
        &&& self.total_units == sum_units(self.line_units@)
        &&& self.curr_index <= self.lines@.len()
    }

    /// Build the document state: split the text into lines, measure them,
    /// and start with the cursor at the first line and nothing delivered.
    pub fn new(
        input_text: String,
        unit: Unit,
        max_unit: usize,
        from_file: bool,
        input_file_name: Option<String>,
    ) -> (st: AppState)
        requires
            4 * input_text@.len() <= usize::MAX,
        ensures
            st.wf(),
            is_line_split(input_text@, st.lines.deep_view()),
            st.input_text == input_text,
            st.unit == unit,
            st.max_unit == max_unit,
            st.from_file == from_file,
            st.input_file_name == input_file_name,
            st.curr_index == 0,
            st.prev_contents@ == Seq::<char>::empty(),
    {
        let lines = split_lines_with_terminator(input_text.as_str());
        proof {
            assert forall|i: int| 0 <= i < lines@.len() implies line_size(
                #[trigger] lines@[i]@,
                unit,
            ) <= usize::MAX by {
                assert(lines@[i]@ == lines.deep_view()[i]);
                lemma_line_size_bound(lines.deep_view()[i], unit);
                lemma_line_len_le_concat(lines.deep_view(), i);
            }
        }
        let line_units = compute_line_units(&lines, unit);
        proof {
            assert forall|i: int| 0 <= i < lines.deep_view().len() implies line_units@[i]
                == line_size(#[trigger] lines.deep_view()[i], unit) by {
                assert(lines@[i]@ == lines.deep_view()[i]);
            }
            lemma_sum_line_sizes_bound(lines.deep_view(), line_units@, unit);
        }
        let mut total: usize = 0;
        let mut i: usize = 0;
        while i < line_units.len()
            invariant
                i <= line_units@.len(),
                total == sum_units(line_units@.take(i as int)),
                sum_units(line_units@) <= 4 * input_text@.len(),
                4 * input_text@.len() <= usize::MAX,
            decreases line_units@.len() - i,
        {
            proof {
                lemma_sum_units_take_step(line_units@, i as int);
                lemma_sum_units_split(line_units@, i + 1);
                lemma_sum_units_nonneg(line_units@.skip(i + 1));
            }
            total = total + line_units[i];
            i = i + 1;
        }
        proof {
            assert(line_units@.take(line_units@.len() as int) =~= line_units@);
        }
        AppState {
            input_text,
            lines,
            line_units,
            total_units: total,
            max_unit,
            unit,
            prev_contents: String::new(),
            curr_index: 0,
            from_file,
            input_file_name,
        }
    }

    /// The display name of the unit system.
    pub fn unit_label(&self) -> (r: &'static str)
        ensures
            self.unit is Chars ==> r@ == "chars"@,
            self.unit is Bytes ==> r@ == "bytes"@,
    {
        match self.unit {
            Unit::Chars => "chars",
            Unit::Bytes => "bytes",
        }
    }
}

} // verus!
