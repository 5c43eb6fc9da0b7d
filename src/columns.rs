//! Columns of input text: up to 100 lines of one to three items separated by spaces.
use vstd::prelude::*;

use crate::render::text_of;
use crate::scale::{max_value, seq_max};

verus! {

/// Lines of input that are read; the rest is dropped.
pub const MAX_LINES: usize = 100;

/// Columns that a line may hold.
pub const MAX_COLUMNS: usize = 3;

/// The pieces of `s` between single spaces; one piece when `s` holds no space.
pub open spec fn pieces(s: Seq<char>) -> Seq<Seq<char>>
    decreases s.len(),
{
    if s.len() == 0 {
        seq![Seq::empty()]
    } else {
        let p = pieces(s.drop_last());
        if s.last() == ' ' {
            p.push(Seq::empty())
        } else {
            p.update(p.len() - 1, p.last().push(s.last()))
        }
    }
}

/// Whitespace as `char::is_whitespace` defines it: the characters of Unicode's
/// White_Space property.
pub open spec fn is_white(c: char) -> bool {
    ||| c == ' '
    ||| '\u{9}' <= c <= '\u{d}'
    ||| c == '\u{85}'
    ||| c == '\u{a0}'
    ||| c == '\u{1680}'
    ||| '\u{2000}' <= c <= '\u{200a}'
    ||| c == '\u{2028}'
    ||| c == '\u{2029}'
    ||| c == '\u{202f}'
    ||| c == '\u{205f}'
    ||| c == '\u{3000}'
}

/// `s` without the whitespace at its start.
pub open spec fn trim_start(s: Seq<char>) -> Seq<char>
    decreases s.len(),
{
    if s.len() > 0 && is_white(s[0]) {
        trim_start(s.drop_first())
    } else {
        s
    }
}

/// `s` without the whitespace at its end.
pub open spec fn trim_end(s: Seq<char>) -> Seq<char>
    decreases s.len(),
{
    if s.len() > 0 && is_white(s.last()) {
        trim_end(s.drop_last())
    } else {
        s
    }
}

/// `s` without the whitespace at its start and end.
pub open spec fn trimmed(s: Seq<char>) -> Seq<char> {
    trim_end(trim_start(s))
}

/// The items of a line: its pieces, trimmed.
pub open spec fn items(line: Seq<char>) -> Seq<Seq<char>> {
    pieces(line).map_values(|p: Seq<char>| trimmed(p))
}

/// Relies on `str::trim`: the text without its leading and trailing whitespace,
/// whitespace being Unicode's White_Space property.
#[verifier::external_body]
fn trim(s: &str) -> (r: String)
    ensures
        r@ == trimmed(s@),
{
    s.trim().to_string()
}

proof fn lemma_pieces_len(s: Seq<char>)
    ensures
        pieces(s).len() >= 1,
    decreases s.len(),
{
    if s.len() > 0 {
        lemma_pieces_len(s.drop_last());
    }
}

/// The items of `line`.
pub fn split_items(line: &str) -> (r: Vec<String>)
    ensures
        r@.len() == items(line@).len(),
        forall|j: int| 0 <= j < r@.len() ==> r@[j]@ == items(line@)[j],
{
    let n = line.unicode_len();
    let mut done: Vec<Vec<char>> = Vec::new();
    let mut cur: Vec<char> = Vec::new();
    let mut i: usize = 0;
    while i < n
        invariant
            n == line@.len(),
            i <= n,
            done@.map_values(|v: Vec<char>| v@).push(cur@) == pieces(line@.take(i as int)),
        decreases n - i,
    {
        let ghost before = line@.take(i as int);
        proof {
            lemma_pieces_len(before);
        }
        let ch = line.get_char(i);
        assert(line@.take(i + 1).drop_last() =~= before);
        if ch == ' ' {
            let old_cur = cur;
            done.push(old_cur);
            cur = Vec::new();
            assert(done@.map_values(|v: Vec<char>| v@).push(cur@) =~= pieces(line@.take(i + 1)));
        } else {
            cur.push(ch);
            assert(done@.map_values(|v: Vec<char>| v@).push(cur@) =~= pieces(line@.take(i + 1)));
        }
        i = i + 1;
    }
    assert(line@.take(n as int) =~= line@);
    done.push(cur);
    assert(done@.map_values(|v: Vec<char>| v@) =~= pieces(line@));
    let mut r: Vec<String> = Vec::new();
    let mut j: usize = 0;
    while j < done.len()
        invariant
            j <= done@.len(),
            done@.map_values(|v: Vec<char>| v@) == pieces(line@),
            r@.len() == j,
            forall|k: int| 0 <= k < j ==> r@[k]@ == items(line@)[k],
        decreases done.len() - j,
    {
        let t = text_of(&done[j]);
        let item = trim(t.as_str());
        assert(done@[j as int]@ == pieces(line@)[j as int]);
        r.push(item);
        j = j + 1;
    }
    r
}

/// A decimal digit.
pub open spec fn is_digit(c: char) -> bool {
    '0' <= c <= '9'
}

/// The number that the digits `s` write.
pub open spec fn digits_value(s: Seq<char>) -> int
    decreases s.len(),
{
    if s.len() == 0 {
        0
    } else {
        digits_value(s.drop_last()) * 10 + (s.last() as int - '0' as int)
    }
}

/// `s` without its leading `+`, if it has one.
pub open spec fn unsigned_digits(s: Seq<char>) -> Seq<char> {
    if s.len() > 0 && s[0] == '+' {
        s.drop_first()
    } else {
        s
    }
}

/// The `u32` that `s` writes in decimal, with an optional leading `+`, as
/// `u32::from_str` reads it; nothing when `s` writes none.
pub open spec fn parsed_u32(s: Seq<char>) -> Option<u32> {
    let d = unsigned_digits(s);
    if d.len() == 0 || exists|i: int| 0 <= i < d.len() && !is_digit(#[trigger] d[i]) {
        None
    } else if digits_value(d) > u32::MAX {
        None
    } else {
        Some(digits_value(d) as u32)
    }
}

proof fn lemma_digits_grow(s: Seq<char>, i: int)
    requires
        0 <= i <= s.len(),
        forall|j: int| 0 <= j < s.len() ==> is_digit(#[trigger] s[j]),
    ensures
        digits_value(s) >= digits_value(s.take(i)) >= 0,
    decreases s.len(),
{
    if i < s.len() {
        assert(s.drop_last().take(i) =~= s.take(i));
        lemma_digits_grow(s.drop_last(), i);
    } else {
        assert(s.take(i) =~= s);
        if s.len() > 0 {
            lemma_digits_grow(s.drop_last(), s.len() - 1);
            assert(s.drop_last().take(s.len() - 1) =~= s.drop_last());
        }
    }
}

/// The `u32` that `s` writes in decimal, with an optional leading `+`.
pub fn parse_u32(s: &str) -> (r: Option<u32>)
    ensures
        r == parsed_u32(s@),
{
    let n = s.unicode_len();
    let start: usize = if n > 0 && s.get_char(0) == '+' {
        1
    } else {
        0
    };
    let ghost d = unsigned_digits(s@);
    assert(d =~= s@.subrange(start as int, n as int));
    if start == n {
        return None;
    }
    let mut i: usize = start;
    while i < n
        invariant
            n == s@.len(),
            start <= i <= n,
            d =~= s@.subrange(start as int, n as int),
            d == unsigned_digits(s@),
            forall|j: int| 0 <= j < i - start ==> is_digit(#[trigger] d[j]),
        decreases n - i,
    {
        let c = s.get_char(i);
        if !('0' <= c && c <= '9') {
            assert(!is_digit(unsigned_digits(s@)[i - start]));
            return None;
        }
        i = i + 1;
    }
    let mut v: u64 = 0;
    let mut i: usize = start;
    while i < n
        invariant
            n == s@.len(),
            start <= i <= n,
            d =~= s@.subrange(start as int, n as int),
            d == unsigned_digits(s@),
            forall|j: int| 0 <= j < d.len() ==> is_digit(#[trigger] d[j]),
            v == digits_value(d.take(i - start)),
            v <= u32::MAX,
        decreases n - i,
    {
        let c = s.get_char(i);
        assert(d.take(i - start + 1).drop_last() =~= d.take(i - start));
        assert(d[i - start] == c);
        let next: u64 = v * 10 + (c as u64 - '0' as u64);
        if next > 0xffff_ffff {
            proof {
                lemma_digits_grow(d, i - start + 1);
                assert(forall|k: int| 0 <= k < d.len() ==> is_digit(#[trigger] unsigned_digits(s@)[k]));
            }
            return None;
        }
        v = next;
        i = i + 1;
    }
    assert(d.take(d.len() as int) =~= d);
    assert(forall|k: int| 0 <= k < d.len() ==> is_digit(#[trigger] unsigned_digits(s@)[k]));
    Some(v as u32)
}

/// Why lines of input cannot be read as columns.
#[derive(Debug, Clone, Copy, PartialEq, Eq, Structural)]
pub enum ColumnsError {
    /// The first line holds more than three items.
    TooManyItems { line: usize, count: usize },
    /// A line holds another number of items than the first line.
    ItemCountMismatch { line: usize, expected: usize },
}

impl ColumnsError {
    /// The index of the line that is refused.
    pub open spec fn line_index(self) -> int {
        match self {
            ColumnsError::TooManyItems { line, .. } => line as int,
            ColumnsError::ItemCountMismatch { line, .. } => line as int,
        }
    }
}

/// Number of lines of `lines` that are read.
pub open spec fn lines_read(lines: Seq<String>) -> int {
    if lines.len() <= MAX_LINES {
        lines.len() as int
    } else {
        MAX_LINES as int
    }
}

/// Number of items of the first line; 0 without lines.
pub open spec fn column_count(lines: Seq<String>) -> int {
    if lines.len() == 0 {
        0
    } else {
        items(lines[0]@).len() as int
    }
}

/// Line `i` holds as many items as the first, and they are no more than three.
pub open spec fn line_fits(lines: Seq<String>, i: int) -> bool {
    column_count(lines) <= MAX_COLUMNS && items(lines[i]@).len() == column_count(lines)
}

/// The characters of each string of `v`.
pub open spec fn texts(v: Seq<String>) -> Seq<Seq<char>> {
    v.map_values(|t: String| t@)
}

/// Column `j` of the first `count` lines.
pub open spec fn column_upto(lines: Seq<String>, j: int, count: int) -> Seq<Seq<char>> {
    if j < column_count(lines) {
        Seq::new(count as nat, |i: int| items(lines[i]@)[j])
    } else {
        Seq::empty()
    }
}

/// Column `j` of the lines that are read.
pub open spec fn column_of(lines: Seq<String>, j: int) -> Seq<Seq<char>> {
    column_upto(lines, j, lines_read(lines))
}

/// Appends item `j` of line `i`, whose items are `row`, to column `col`.
fn push_item(col: &mut Vec<String>, row: &Vec<String>, j: usize, lines: &Vec<String>, i: usize)
    requires
        i < lines@.len(),
        line_fits(lines@, i as int),
        row@.len() == items(lines@[i as int]@).len(),
        forall|k: int| 0 <= k < row@.len() ==> row@[k]@ == items(lines@[i as int]@)[k],
        texts(old(col)@) == column_upto(lines@, j as int, i as int),
    ensures
        texts(final(col)@) == column_upto(lines@, j as int, i + 1),
{
    let ghost before = col@;
    if j < row.len() {
        let t = row[j].clone();
        assert(t@ == items(lines@[i as int]@)[j as int]);
        col.push(t);
        assert(col@ == before.push(t));
        assert(j < column_count(lines@));
        assert(column_upto(lines@, j as int, i as int).len() == i);
        assert(texts(before).len() == before.len());
        assert(before.len() == i);
        assert(texts(col@).len() == i + 1);
        assert forall|k: int| 0 <= k < i + 1 implies texts(col@)[k] == column_upto(lines@, j as int, i + 1)[k] by {
            if k < i {
                assert(texts(col@)[k] == texts(before)[k]);
            }
        }
    }
    assert(texts(col@) =~= column_upto(lines@, j as int, i + 1));
}

/// Every item of `col` is a `u32`.
pub open spec fn all_integers(col: Seq<Seq<char>>) -> bool {
    forall|k: int| 0 <= k < col.len() ==> parsed_u32(#[trigger] col[k]) is Some
}

/// The values of the items of `col`.
pub open spec fn integers_of(col: Seq<Seq<char>>) -> Seq<u32> {
    Seq::new(col.len(), |k: int| parsed_u32(col[k])->0)
}

/// Why columns cannot be read as a chart's series.
#[derive(Debug, Clone, Copy, PartialEq, Eq, Structural)]
pub enum SeriesError {
    /// An item of the first column is not an integer.
    NotIntegers,
    /// The second column holds labels, and a third column follows it.
    LabelsBeforeThirdColumn,
}

/// The series of a chart, as columns of input give them.
pub struct Series<'a> {
    /// The primary values: the first column.
    pub data: Vec<u32>,
    /// The comparison values: the second column where it holds integers; else empty.
    pub compare: Vec<u32>,
    /// The labels: the column after the integers.
    pub labels: Vec<&'a str>,
}

/// The strings of `v`.
pub open spec fn strs(v: Seq<&str>) -> Seq<Seq<char>> {
    v.map_values(|t: &str| t@)
}

/// The series of the columns: integers in the first; in the second integers to
/// compare with, or labels; labels in the third when the second holds integers.
pub fn series<'a>(cols: &'a StdinColumns) -> (r: Result<Series<'a>, SeriesError>)
    requires
        cols@.len() == 3,
    ensures
        r is Err ==> (r->Err_0 == SeriesError::NotIntegers <==> !all_integers(cols@[0])),
        r is Err <==> (!all_integers(cols@[0]) || (!all_integers(cols@[1]) && cols@[2].len() > 0)),
        r is Ok ==> ({
            let s = r->Ok_0;
            &&& s.data@ == integers_of(cols@[0])
            &&& all_integers(cols@[1]) ==> s.compare@ == integers_of(cols@[1]) && strs(s.labels@)
                == cols@[2]
            &&& !all_integers(cols@[1]) ==> s.compare@.len() == 0 && strs(s.labels@) == cols@[1]
        }),
{
    let data = match cols.try_integers(0) {
        Ok(v) => v,
        Err(_) => return Err(SeriesError::NotIntegers),
    };
    assert(data@ =~= integers_of(cols@[0]));
    match cols.try_integers(1) {
        Ok(compare) => {
            let labels = cols.strings(2);
            assert(compare@ =~= integers_of(cols@[1]));
            assert(strs(labels@) =~= cols@[2]);
            Ok(Series { data, compare, labels })
        },
        Err(_) => {
            let labels = cols.strings(1);
            let third = cols.strings(2);
            assert(strs(labels@) =~= cols@[1]);
            if third.len() > 0 {
                Err(SeriesError::LabelsBeforeThirdColumn)
            } else {
                Ok(Series { data, compare: Vec::new(), labels })
            }
        },
    }
}

/// The largest value of both series; 0 when both are empty.
pub fn largest_value(data: &Vec<u32>, compare: &Vec<u32>) -> (r: u32)
    ensures
        r as int == seq_max(data@ + compare@),
{
    let mut all: Vec<u32> = data.clone();
    let mut j: usize = 0;
    while j < compare.len()
        invariant
            j <= compare@.len(),
            all@ == data@ + compare@.take(j as int),
        decreases compare.len() - j,
    {
        all.push(compare[j]);
        j = j + 1;
        assert(all@ =~= data@ + compare@.take(j as int));
    }
    assert(compare@.take(compare@.len() as int) =~= compare@);
    max_value(&all)
}

/// Lines of chart when none are asked for.
pub const DEFAULT_HEIGHT: u16 = 16;

/// The height of a chart whose largest value is `data_max`: the height asked
/// for (16 if none), no more than `data_max`, and at least one line.
pub fn chart_height(data_max: u32, requested: Option<u16>) -> (r: u16)
    ensures
        ({
            let want = match requested {
                Some(h) => h as int,
                None => DEFAULT_HEIGHT as int,
            };
            let h = if (data_max as int) < want {
                data_max as int
            } else {
                want
            };
            r as int == if h < 1 {
                1
            } else {
                h
            }
        }),
{
    let want: u16 = match requested {
        Some(h) => h,
        None => DEFAULT_HEIGHT,
    };
    let h: u16 = if (data_max as u64) < (want as u64) {
        data_max as u16
    } else {
        want
    };
    if h < 1 {
        1
    } else {
        h
    }
}

/// Text in three columns: integers, then optionally integers or labels, then labels.
pub struct StdinColumns {
    cols: Vec<Vec<String>>,
}

impl View for StdinColumns {
    type V = Seq<Seq<Seq<char>>>;

    closed spec fn view(&self) -> Seq<Seq<Seq<char>>> {
        self.cols@.map_values(|c: Vec<String>| texts(c@))
    }
}

impl StdinColumns {
    /// The columns of up to the first 100 of `lines`, whose items are separated by
    /// spaces. The first line fixes how many columns there are; a line with
    /// another count, or a first line with more than three, is refused.
    pub fn from_lines(lines: &Vec<String>) -> (r: Result<StdinColumns, ColumnsError>)
        ensures
            r is Ok <==> forall|i: int| 0 <= i < lines_read(lines@) ==> line_fits(lines@, i),
            r is Ok ==> r->Ok_0@.len() == 3 && forall|j: int| 0 <= j < 3 ==> r->Ok_0@[j] == column_of(lines@, j),
            r is Err ==> ({
                let e = r->Err_0;
                let i = e.line_index();
                &&& 0 <= i < lines_read(lines@)
                &&& !line_fits(lines@, i)
                &&& forall|k: int| 0 <= k < i ==> line_fits(lines@, k)
                &&& e == (if column_count(lines@) > MAX_COLUMNS {
                    ColumnsError::TooManyItems { line: i as usize, count: column_count(lines@) as usize }
                } else {
                    ColumnsError::ItemCountMismatch { line: i as usize, expected: column_count(lines@) as usize }
                })
            }),
    {
        let m: usize = if lines.len() <= MAX_LINES {
            lines.len()
        } else {
            MAX_LINES
        };
        let mut c0: Vec<String> = Vec::new();
        let mut c1: Vec<String> = Vec::new();
        let mut c2: Vec<String> = Vec::new();
        let mut width: usize = 0;
        let mut i: usize = 0;
        while i < m
            invariant
                m == lines_read(lines@),
                i <= m,
                i > 0 ==> width == column_count(lines@),
                forall|k: int| 0 <= k < i ==> line_fits(lines@, k),
                texts(c0@) == column_upto(lines@, 0, i as int),
                texts(c1@) == column_upto(lines@, 1, i as int),
                texts(c2@) == column_upto(lines@, 2, i as int),
            decreases m - i,
        {
            let row = split_items(lines[i].as_str());
            if i == 0 {
                width = row.len();
            }
            assert(width == column_count(lines@));
            if width > MAX_COLUMNS {
                assert(!line_fits(lines@, i as int));
                return Err(ColumnsError::TooManyItems { line: i, count: width });
            }
            if row.len() != width {
                assert(!line_fits(lines@, i as int));
                return Err(ColumnsError::ItemCountMismatch { line: i, expected: width });
            }
            push_item(&mut c0, &row, 0, lines, i);
            push_item(&mut c1, &row, 1, lines, i);
            push_item(&mut c2, &row, 2, lines, i);
            assert(line_fits(lines@, i as int));
            i = i + 1;
        }
        let mut cols: Vec<Vec<String>> = Vec::new();
        cols.push(c0);
        cols.push(c1);
        cols.push(c2);
        let r = StdinColumns { cols };
        assert(r@[0] == column_of(lines@, 0));
        assert(r@[1] == column_of(lines@, 1));
        assert(r@[2] == column_of(lines@, 2));
        Ok(r)
    }

    /// Column `i` read as `u32` values; the index of the first item that is not one otherwise.
    pub fn try_integers(&self, i: usize) -> (r: Result<Vec<u32>, usize>)
        requires
            self@.len() == 3,
            i < 3,
        ensures
            r is Ok <==> forall|k: int| 0 <= k < self@[i as int].len() ==> parsed_u32(#[trigger] self@[i as int][k]) is Some,
            r is Ok ==> r->Ok_0@.len() == self@[i as int].len() && forall|k: int|
                0 <= k < self@[i as int].len() ==> Some(r->Ok_0@[k]) == parsed_u32(#[trigger] self@[i as int][k]),
            r is Err ==> r->Err_0 < self@[i as int].len() && parsed_u32(self@[i as int][r->Err_0 as int]) is None
                && forall|k: int| 0 <= k < r->Err_0 ==> parsed_u32(#[trigger] self@[i as int][k]) is Some,
    {
        let col = &self.cols[i];
        assert(texts(col@) == self@[i as int]);
        let mut result: Vec<u32> = Vec::new();
        let mut k: usize = 0;
        while k < col.len()
            invariant
                texts(col@) == self@[i as int],
                k <= col@.len(),
                result@.len() == k,
                forall|q: int| 0 <= q < k ==> Some(result@[q]) == parsed_u32(#[trigger] self@[i as int][q]),
            decreases col.len() - k,
        {
            assert(col@[k as int]@ == self@[i as int][k as int]);
            match parse_u32(col[k].as_str()) {
                Some(v) => result.push(v),
                None => return Err(k),
            }
            k = k + 1;
        }
        Ok(result)
    }

    /// Column `i` as text.
    pub fn strings(&self, i: usize) -> (r: Vec<&str>)
        requires
            self@.len() == 3,
            i < 3,
        ensures
            r@.len() == self@[i as int].len(),
            forall|k: int| 0 <= k < r@.len() ==> (#[trigger] r@[k])@ == self@[i as int][k],
    {
        let col = &self.cols[i];
        assert(texts(col@) == self@[i as int]);
        let mut r: Vec<&str> = Vec::new();
        let mut k: usize = 0;
        while k < col.len()
            invariant
                texts(col@) == self@[i as int],
                k <= col@.len(),
                r@.len() == k,
                forall|q: int| 0 <= q < k ==> (#[trigger] r@[q])@ == self@[i as int][q],
            decreases col.len() - k,
        {
            assert(col@[k as int]@ == self@[i as int][k as int]);
            r.push(col[k].as_str());
            k = k + 1;
        }
        r
    }
}

} // verus!
