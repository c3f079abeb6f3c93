//! CSV helpers: delimiter and header detection, tolerant date and number parsing.

use vstd::prelude::*;

use crate::codec::utf8_text;
use crate::date::{date_in, moment_in, parse_moment, parse_with, Date};
use crate::decimal::{view_of, Decimal, Num};
use crate::error::{unreadable, Refusal, Result};
use crate::money::{guess_decimal_sep, likely_decimal_sep, localized, parse_localized};
use crate::text::{alphabetic, ascii_digit, blank, byte_length, cat, cat5, char_texts, chars, contains, debug_text, holds, int_in, is_alphabetic, is_blank, is_digit, join, joined, lowercase_of, own, parse_int, parts, quoted, same, slice_chars, split, str_texts, string, texts, to_lowercase, trim, trim_chars, trimmed, width_of};

verus! {

#[derive(Debug)]
pub struct Table {
    pub headers: Vec<String>,
    pub rows: Vec<Vec<String>>,
    pub delimiter: char,
    pub header_row: usize,
    /// Lines before the header (bank preambles), kept for balance hints.
    pub preamble: Vec<String>,
}

/// Rows of cells as text.
pub open spec fn cells(v: Seq<Vec<String>>) -> Seq<Seq<Seq<char>>> {
    v.map_values(|r: Vec<String>| texts(r@))
}

#[verifier::ext_equal]
pub struct ShownTable {
    pub headers: Seq<Seq<char>>,
    pub rows: Seq<Seq<Seq<char>>>,
    pub delimiter: char,
    pub header_row: nat,
    pub preamble: Seq<Seq<char>>,
}

impl View for Table {
    type V = ShownTable;

    open spec fn view(&self) -> ShownTable {
        ShownTable {
            headers: texts(self.headers@),
            rows: cells(self.rows@),
            delimiter: self.delimiter,
            header_row: self.header_row as nat,
            preamble: texts(self.preamble@),
        }
    }
}

/// Bytes read as Latin-1: each is the character with its number.
pub open spec fn latin1(b: Seq<u8>) -> Seq<char> {
    b.map_values(|x: u8| x as char)
}

/// A text without byte order marks at its start.
pub open spec fn unmarked(s: Seq<char>) -> Seq<char>
    decreases s.len(),
{
    if s.len() > 0 && s[0] == '\u{feff}' {
        unmarked(s.skip(1))
    } else {
        s
    }
}

/// The text of a file: UTF-8 where it is that, else Latin-1.
pub open spec fn text_in(b: Seq<u8>) -> Seq<char> {
    unmarked(
        if vstd::utf8::valid_utf8(b) {
            vstd::utf8::decode_utf8(b)
        } else {
            latin1(b)
        },
    )
}

fn latin1_text(b: &[u8]) -> (r: String)
    ensures
        r@ == latin1(b@),
{
    let mut r: String = String::new();
    let mut i: usize = 0;
    while i < b.len()
        invariant
            i <= b.len(),
            r@ == latin1(b@).take(i as int),
        decreases b.len() - i,
    {
        r.push(b[i] as char);
        assert(r@ =~= latin1(b@).take(i + 1));
        i = i + 1;
    }
    assert(r@ =~= latin1(b@));
    r
}

pub fn decode(content: &[u8]) -> (r: String)
    ensures
        r@ == text_in(content@),
{
    let text = match utf8_text(content) {
        Some(s) => s,
        None => latin1_text(content),
    };
    let cs = chars(text.as_str());
    let mut i: usize = 0;
    assert(cs@.skip(0) =~= cs@);
    while i < cs.len() && cs[i] == '\u{feff}'
        invariant
            i <= cs.len(),
            unmarked(cs@) == unmarked(cs@.skip(i as int)),
        decreases cs.len() - i,
    {
        assert(cs@.skip(i as int).skip(1) =~= cs@.skip(i + 1));
        i = i + 1;
    }
    let rest = slice_chars(&cs, i, cs.len());
    assert(rest@ =~= cs@.skip(i as int));
    string(&rest)
}

/// How many line ends stand before the place `n`.
pub open spec fn line_ends(s: Seq<char>, n: nat) -> nat
    decreases n,
{
    if n == 0 {
        0
    } else {
        line_ends(s, (n - 1) as nat) + if s[n - 1] == '\n' {
            1nat
        } else {
            0
        }
    }
}

/// How often `d` occurs in the first five lines, up to the place `n`.
pub open spec fn early(s: Seq<char>, d: char, n: nat) -> nat
    decreases n,
{
    if n == 0 {
        0
    } else {
        early(s, d, (n - 1) as nat) + if s[n - 1] == d && line_ends(s, (n - 1) as nat) < 5 {
            1nat
        } else {
            0
        }
    }
}

/// The more frequent of two delimiters, the first where neither is.
pub open spec fn likelier(s: Seq<char>, best: (char, nat), d: char) -> (char, nat) {
    let n = early(s, d, s.len());
    if n > best.1 {
        (d, n)
    } else {
        best
    }
}

/// The delimiter that occurs most in the first five lines.
pub open spec fn delimiter_in(s: Seq<char>) -> char {
    likelier(s, likelier(s, likelier(s, likelier(s, (',', 0), ','), ';'), '\t'), '|').0
}

fn count_early(cs: &[char], d: char) -> (r: usize)
    ensures
        r == early(cs@, d, cs@.len()),
{
    let mut count: usize = 0;
    let mut lines: usize = 0;
    let mut i: usize = 0;
    while i < cs.len()
        invariant
            i <= cs.len(),
            count == early(cs@, d, i as nat),
            count <= i,
            lines == line_ends(cs@, i as nat),
            lines <= i,
        decreases cs.len() - i,
    {
        if cs[i] == d && lines < 5 {
            count = count + 1;
        }
        if cs[i] == '\n' {
            lines = lines + 1;
        }
        i = i + 1;
    }
    count
}

pub fn detect_delimiter(sample: &str) -> (r: char)
    ensures
        r == delimiter_in(sample@),
{
    let cs = chars(sample);
    let comma = count_early(&cs, ',');
    let semicolon = count_early(&cs, ';');
    let tab = count_early(&cs, '\t');
    let bar = count_early(&cs, '|');
    let mut best: char = ',';
    let mut most: usize = comma;
    if semicolon > most {
        best = ';';
        most = semicolon;
    }
    if tab > most {
        best = '\t';
        most = tab;
    }
    if bar > most {
        best = '|';
    }
    best
}

/// The records of a CSV text: their cells without outer white space, or why they cannot be read.
pub uninterp spec fn records_in(text: Seq<char>, delimiter: u8) -> std::result::Result<Seq<Seq<Seq<char>>>, Seq<char>>;

/// The reader of the csv crate, made for records of any length, without a header and with trimmed
/// cells: the cells of each record, or the text of its first error. How the format is read is not
/// written out here.
#[verifier::external_body]
pub(crate) fn read_records(text: &str, delimiter: u8) -> (r: std::result::Result<Vec<Vec<String>>, String>)
    ensures
        match r {
            Ok(v) => records_in(text@, delimiter) == Ok::<Seq<Seq<Seq<char>>>, Seq<char>>(cells(v@)),
            Err(m) => records_in(text@, delimiter) == Err::<Seq<Seq<Seq<char>>>, Seq<char>>(m@),
        },
{
    let mut reader = csv::ReaderBuilder::new().delimiter(delimiter).has_headers(false).flexible(true).trim(csv::Trim::All).from_reader(
        text.as_bytes(),
    );
    let rows: std::result::Result<Vec<csv::StringRecord>, csv::Error> = reader.records().collect();
    match rows {
        Ok(v) => Ok(v.iter().map(|r| r.iter().map(|s| s.to_string()).collect()).collect()),
        Err(e) => Err(e.to_string()),
    }
}

/// How many of the first `n` cells are not blank.
pub open spec fn filled_up_to(row: Seq<Seq<char>>, n: nat) -> nat
    decreases n,
{
    if n == 0 {
        0
    } else {
        filled_up_to(row, (n - 1) as nat) + if blank(row[n - 1]) {
            0nat
        } else {
            1
        }
    }
}

/// How many cells of a record are not blank.
pub open spec fn width(row: Seq<Seq<char>>) -> nat {
    filled_up_to(row, row.len())
}

/// How many of the first `n` records have `w` cells that are not blank.
pub open spec fn as_wide(rs: Seq<Seq<Seq<char>>>, w: nat, n: nat) -> nat
    decreases n,
{
    if n == 0 {
        0
    } else {
        as_wide(rs, w, (n - 1) as nat) + if width(rs[n - 1]) == w {
            1nat
        } else {
            0
        }
    }
}

/// Of the widths of the first `n` records, from two on, the one that most records have, the
/// greatest of several.
pub open spec fn commonest(rs: Seq<Seq<Seq<char>>>, n: nat) -> Option<nat>
    decreases n,
{
    if n == 0 {
        None
    } else {
        let w = width(rs[n - 1]);
        let best = commonest(rs, (n - 1) as nat);
        if w < 2 {
            best
        } else {
            match best {
                None => Some(w),
                Some(b) => if as_wide(rs, w, rs.len()) > as_wide(rs, b, rs.len()) || (as_wide(rs, w, rs.len()) == as_wide(
                    rs,
                    b,
                    rs.len(),
                ) && w > b) {
                    Some(w)
                } else {
                    Some(b)
                },
            }
        }
    }
}

/// The shape of the data.
pub open spec fn modal_width(rs: Seq<Seq<Seq<char>>>) -> nat {
    match commonest(rs, rs.len()) {
        Some(w) => w,
        None => 2,
    }
}

pub open spec fn has_letter(row: Seq<Seq<char>>) -> bool {
    exists|i: int, k: int| 0 <= i < row.len() && 0 <= k < row[i].len() && #[trigger] alphabetic(row[i][k])
}

pub open spec fn numeral(c: char) -> bool {
    is_digit(c) || c == '.' || c == ',' || c == '-' || c == '/'
}

/// Whether a cell is written with digits and their punctuation alone.
pub open spec fn numeric(cell: Seq<char>) -> bool {
    !blank(cell) && forall|k: int| 0 <= k < trimmed(cell).len() ==> numeral(#[trigger] trimmed(cell)[k])
}

pub open spec fn numeric_up_to(row: Seq<Seq<char>>, n: nat) -> nat
    decreases n,
{
    if n == 0 {
        0
    } else {
        numeric_up_to(row, (n - 1) as nat) + if numeric(row[n - 1]) {
            1nat
        } else {
            0
        }
    }
}

/// Whether a record can be the header: at least three filled cells, about as wide as the data, with a
/// letter in it, and not mostly numbers.
pub open spec fn heads(row: Seq<Seq<char>>, modal: nat) -> bool {
    &&& width(row) + 1 >= modal
    &&& width(row) >= 3
    &&& has_letter(row)
    &&& numeric_up_to(row, row.len()) * 2 <= width(row)
}

/// The first of the first fifty records, from `i` on, that can be the header.
pub open spec fn header_from(rs: Seq<Seq<Seq<char>>>, modal: nat, i: int) -> int
    decreases 50 - i,
{
    if i < 0 || i >= 50 || i >= rs.len() {
        0
    } else if heads(rs[i], modal) {
        i
    } else {
        header_from(rs, modal, i + 1)
    }
}

/// The place of the header where none is given.
pub open spec fn header_place(rs: Seq<Seq<Seq<char>>>) -> int {
    header_from(rs, modal_width(rs), 0)
}

fn count_filled(row: &Vec<String>) -> (r: usize)
    ensures
        r == width(texts(row@)),
        r <= row@.len(),
{
    let mut n: usize = 0;
    let mut i: usize = 0;
    while i < row.len()
        invariant
            i <= row.len(),
            n == filled_up_to(texts(row@), i as nat),
            n <= i,
        decreases row.len() - i,
    {
        if !is_blank(row[i].as_str()) {
            n = n + 1;
        }
        i = i + 1;
    }
    n
}

fn is_numeric(cell: &str) -> (r: bool)
    ensures
        r == numeric(cell@),
{
    if is_blank(cell) {
        return false;
    }
    let cs = trim_chars(&chars(cell));
    let mut i: usize = 0;
    while i < cs.len()
        invariant
            i <= cs.len(),
            cs@ == trimmed(cell@),
            forall|k: int| 0 <= k < i ==> numeral(#[trigger] cs@[k]),
        decreases cs.len() - i,
    {
        let c = cs[i];
        if !(ascii_digit(c) || c == '.' || c == ',' || c == '-' || c == '/') {
            assert(!numeral(trimmed(cell@)[i as int]));
            return false;
        }
        i = i + 1;
    }
    true
}

fn holds_letter(row: &Vec<String>) -> (r: bool)
    ensures
        r == has_letter(texts(row@)),
{
    let ghost ts = texts(row@);
    let mut i: usize = 0;
    while i < row.len()
        invariant
            i <= row.len(),
            ts == texts(row@),
            forall|j: int, k: int| 0 <= j < i && 0 <= k < ts[j].len() ==> !#[trigger] alphabetic(ts[j][k]),
        decreases row.len() - i,
    {
        let cs = chars(row[i].as_str());
        assert(cs@ == ts[i as int]);
        let mut q: usize = 0;
        while q < cs.len()
            invariant
                q <= cs.len(),
                i < row.len(),
                ts == texts(row@),
                cs@ == ts[i as int],
                forall|k: int| 0 <= k < q ==> !#[trigger] alphabetic(ts[i as int][k]),
                forall|j: int, k: int| 0 <= j < i && 0 <= k < ts[j].len() ==> !#[trigger] alphabetic(ts[j][k]),
            decreases cs.len() - q,
        {
            if is_alphabetic(cs[q]) {
                assert(alphabetic(ts[i as int][q as int]));
                return true;
            }
            q = q + 1;
        }
        i = i + 1;
    }
    false
}

fn is_heading(row: &Vec<String>, modal: usize) -> (r: bool)
    ensures
        r == heads(texts(row@), modal as nat),
{
    let filled = count_filled(row);
    let ghost ts = texts(row@);
    let mut numbers: usize = 0;
    let mut i: usize = 0;
    while i < row.len()
        invariant
            i <= row.len(),
            ts == texts(row@),
            numbers == numeric_up_to(ts, i as nat),
            numbers <= i,
        decreases row.len() - i,
    {
        if is_numeric(row[i].as_str()) {
            numbers = numbers + 1;
        }
        i = i + 1;
    }
    filled as u128 + 1 >= modal as u128 && filled >= 3 && holds_letter(row) && numbers as u128 * 2 <= filled as u128
}

/// The header is the first row with at least three non-empty cells, at least one letter, whose width
/// matches most of the rows, and which is not mostly numbers.
pub fn auto_header(records: &[Vec<String>]) -> (r: usize)
    ensures
        r == header_place(cells(records@)),
        r == 0 || r < records@.len(),
{
    let ghost rs = cells(records@);
    let mut widths: Vec<usize> = Vec::new();
    let mut tally: Vec<usize> = Vec::new();
    let mut i: usize = 0;
    while i < records.len()
        invariant
            i <= records.len(),
            rs == cells(records@),
            widths@.len() == i,
            forall|k: int| 0 <= k < i ==> (#[trigger] widths@[k]) == width(rs[k]) && widths@[k] < tally@.len(),
            forall|w: int| 0 <= w < tally@.len() ==> (#[trigger] tally@[w]) == as_wide(rs, w as nat, i as nat) && tally@[w] <= i,
            forall|w: nat| w >= tally@.len() ==> #[trigger] as_wide(rs, w, i as nat) == 0,
        decreases records.len() - i,
    {
        let w = count_filled(&records[i]);
        while tally.len() <= w
            invariant
                i < records.len(),
                rs == cells(records@),
                widths@.len() == i,
                forall|k: int| 0 <= k < i ==> (#[trigger] widths@[k]) == width(rs[k]) && widths@[k] < tally@.len(),
                forall|w: int| 0 <= w < tally@.len() ==> (#[trigger] tally@[w]) == as_wide(rs, w as nat, i as nat) && tally@[w] <= i,
                forall|w: nat| w >= tally@.len() ==> #[trigger] as_wide(rs, w, i as nat) == 0,
            decreases w + 1 - tally.len(),
        {
            assert(as_wide(rs, tally@.len(), i as nat) == 0);
            tally.push(0);
        }
        let n = tally[w];
        tally.set(w, n + 1);
        widths.push(w);
        i = i + 1;
        assert forall|q: nat| q >= tally@.len() implies #[trigger] as_wide(rs, q, i as nat) == 0 by {
            assert(as_wide(rs, q, (i - 1) as nat) == 0);
        }
    }
    let mut modal: Option<usize> = None;
    let mut j: usize = 0;
    while j < records.len()
        invariant
            j <= records.len(),
            rs == cells(records@),
            widths@.len() == records@.len(),
            forall|k: int| 0 <= k < records@.len() ==> (#[trigger] widths@[k]) == width(rs[k]) && widths@[k] < tally@.len(),
            forall|w: int| 0 <= w < tally@.len() ==> (#[trigger] tally@[w]) == as_wide(rs, w as nat, rs.len()),
            match modal {
                Some(b) => commonest(rs, j as nat) == Some(b as nat) && b < tally@.len(),
                None => commonest(rs, j as nat) is None,
            },
        decreases records.len() - j,
    {
        let w = widths[j];
        if w >= 2 {
            match modal {
                None => {
                    modal = Some(w);
                },
                Some(b) => {
                    if tally[w] > tally[b] || (tally[w] == tally[b] && w > b) {
                        modal = Some(w);
                    }
                },
            }
        }
        j = j + 1;
    }
    let shape: usize = match modal {
        Some(w) => w,
        None => 2,
    };
    let mut h: usize = 0;
    while h < records.len() && h < 50
        invariant
            h <= records.len(),
            h <= 50,
            rs == cells(records@),
            shape == modal_width(rs),
            header_place(rs) == header_from(rs, shape as nat, h as int),
        decreases records.len() - h,
    {
        if is_heading(&records[h], shape) {
            return h;
        }
        h = h + 1;
    }
    0
}

/// A row with empty cells up to a width.
pub open spec fn filled_out(row: Seq<Seq<char>>, n: nat) -> Seq<Seq<char>> {
    if row.len() < n {
        row + Seq::new((n - row.len()) as nat, |i: int| Seq::<char>::empty())
    } else {
        row
    }
}

/// The rows below the header up to `n`, without the blank ones.
pub open spec fn data_rows(rs: Seq<Seq<Seq<char>>>, header: int, n: int) -> Seq<Seq<Seq<char>>>
    decreases n - header,
{
    if n <= header + 1 {
        Seq::empty()
    } else {
        let before = data_rows(rs, header, n - 1);
        if width(rs[n - 1]) > 0 {
            before.push(filled_out(rs[n - 1], rs[header].len()))
        } else {
            before
        }
    }
}

/// The table in records, whose header stands in the given row, counted from one.
pub open spec fn table_of(rs: Seq<Seq<Seq<char>>>, delimiter: char, header_row: Option<nat>) -> std::result::Result<ShownTable, Refusal> {
    let h = match header_row {
        Some(n) => if n >= 1 {
            n - 1
        } else {
            header_place(rs)
        },
        None => header_place(rs),
    };
    if rs.len() == 0 {
        Err(Refusal::Parse("the file has no rows"@))
    } else if h >= rs.len() {
        Err(Refusal::Parse("header row is beyond the end of the file"@))
    } else {
        Ok(
            ShownTable {
                headers: Seq::new(rs[h].len(), |i: int| trimmed(rs[h][i])),
                rows: data_rows(rs, h, rs.len() as int),
                delimiter,
                header_row: (h + 1) as nat,
                preamble: Seq::new(h as nat, |i: int| joined(rs[i], " "@)),
            },
        )
    }
}

fn row_out(row: &Vec<String>, n: usize) -> (r: Vec<String>)
    ensures
        texts(r@) == filled_out(texts(row@), n as nat),
{
    let mut r: Vec<String> = Vec::new();
    let mut i: usize = 0;
    while i < row.len()
        invariant
            i <= row.len(),
            texts(r@) == texts(row@).take(i as int),
        decreases row.len() - i,
    {
        let ghost before = texts(r@);
        r.push(own(row[i].as_str()));
        assert(texts(r@) =~= before.push(texts(row@)[i as int]));
        i = i + 1;
        assert(texts(r@) =~= texts(row@).take(i as int));
    }
    while r.len() < n
        invariant
            row@.len() <= r@.len(),
            r@.len() <= n || r@.len() == row@.len(),
            texts(r@) =~= texts(row@) + Seq::new((r@.len() - row@.len()) as nat, |i: int| Seq::<char>::empty()),
        decreases n - r.len(),
    {
        let ghost before = texts(r@);
        let empty: String = String::new();
        r.push(empty);
        assert(empty@ =~= Seq::<char>::empty());
        assert(texts(r@) =~= before.push(Seq::<char>::empty()));
    }
    assert(texts(r@) =~= filled_out(texts(row@), n as nat));
    r
}

/// The table in records that were read.
pub fn table_from(records: &[Vec<String>], delimiter: char, header_row: Option<usize>) -> (r: Result<Table>)
    ensures
        match r {
            Ok(t) => table_of(
                cells(records@),
                delimiter,
                match header_row {
                    Some(n) => Some(n as nat),
                    None => None,
                },
            ) == Ok::<ShownTable, Refusal>(t@),
            Err(e) => table_of(
                cells(records@),
                delimiter,
                match header_row {
                    Some(n) => Some(n as nat),
                    None => None,
                },
            ) == Err::<ShownTable, Refusal>(e@),
        },
{
    let ghost rs = cells(records@);
    if records.len() == 0 {
        return Err(unreadable("the file has no rows"));
    }
    let h: usize = match header_row {
        Some(n) => if n >= 1 {
            n - 1
        } else {
            auto_header(records)
        },
        None => auto_header(records),
    };
    if h >= records.len() {
        return Err(unreadable("header row is beyond the end of the file"));
    }
    let mut preamble: Vec<String> = Vec::new();
    let mut i: usize = 0;
    while i < h
        invariant
            i <= h < records@.len(),
            rs == cells(records@),
            texts(preamble@) == Seq::new(i as nat, |k: int| joined(rs[k], " "@)),
        decreases h - i,
    {
        let ghost before = texts(preamble@);
        let line = join(&records[i], " ");
        preamble.push(line);
        assert(texts(preamble@) =~= before.push(line@));
        i = i + 1;
        assert(texts(preamble@) =~= Seq::new(i as nat, |k: int| joined(rs[k], " "@)));
    }
    let mut headers: Vec<String> = Vec::new();
    let mut j: usize = 0;
    while j < records[h].len()
        invariant
            h < records@.len(),
            rs == cells(records@),
            j <= records@[h as int]@.len(),
            texts(headers@) == Seq::new(j as nat, |k: int| trimmed(rs[h as int][k])),
        decreases records[h as int].len() - j,
    {
        let ghost before = texts(headers@);
        let name = trim(records[h][j].as_str());
        headers.push(name);
        assert(texts(headers@) =~= before.push(name@));
        j = j + 1;
        assert(texts(headers@) =~= Seq::new(j as nat, |k: int| trimmed(rs[h as int][k])));
    }
    let mut rows: Vec<Vec<String>> = Vec::new();
    let mut k: usize = h + 1;
    while k < records.len()
        invariant
            h < k <= records@.len(),
            rs == cells(records@),
            headers@.len() == rs[h as int].len(),
            cells(rows@) == data_rows(rs, h as int, k as int),
        decreases records.len() - k,
    {
        if count_filled(&records[k]) > 0 {
            let ghost before = cells(rows@);
            let row = row_out(&records[k], headers.len());
            rows.push(row);
            assert(cells(rows@) =~= before.push(filled_out(rs[k as int], rs[h as int].len())));
        }
        k = k + 1;
    }
    let t = Table { headers, rows, delimiter, header_row: h + 1, preamble };
    assert(t@.headers =~= Seq::new(rs[h as int].len(), |i: int| trimmed(rs[h as int][i])));
    Ok(t)
}

/// The delimiter as one byte, cut short where it needs more.
pub open spec fn delimiter_byte(c: char) -> u8 {
    c as u8
}

/// The table in a CSV text.
pub open spec fn table_in(text: Seq<char>, delimiter: Option<char>, header_row: Option<nat>) -> std::result::Result<ShownTable, Refusal> {
    let d = match delimiter {
        Some(c) => c,
        None => delimiter_in(text),
    };
    match records_in(text, delimiter_byte(d)) {
        Err(m) => Err(Refusal::Parse("csv: "@ + m)),
        Ok(rs) => table_of(rs, d, header_row),
    }
}

/// Parses a CSV text into a table. `header_row` is counted from one; without it the header is
/// searched for.
pub fn parse_table(text: &str, delimiter: Option<char>, header_row: Option<usize>) -> (r: Result<Table>)
    ensures
        match r {
            Ok(t) => table_in(
                text@,
                delimiter,
                match header_row {
                    Some(n) => Some(n as nat),
                    None => None,
                },
            ) == Ok::<ShownTable, Refusal>(t@),
            Err(e) => table_in(
                text@,
                delimiter,
                match header_row {
                    Some(n) => Some(n as nat),
                    None => None,
                },
            ) == Err::<ShownTable, Refusal>(e@),
        },
{
    let d: char = match delimiter {
        Some(c) => c,
        None => detect_delimiter(text),
    };
    match read_records(text, #[verifier::truncate] (d as u8)) {
        Ok(records) => table_from(&records, d, header_row),
        Err(m) => Err(unreadable(cat("csv: ", m.as_str()).as_str())),
    }
}

/// A column's name as it is compared.
pub open spec fn column_name(s: Seq<char>) -> Seq<char> {
    lowercase_of(trimmed(s))
}

/// The first column with a name, from `i` on.
pub open spec fn named_from(hs: Seq<Seq<char>>, name: Seq<char>, i: int) -> Option<int>
    decreases hs.len() - i,
{
    if i < 0 || i >= hs.len() {
        None
    } else if column_name(hs[i]) == name {
        Some(i)
    } else {
        named_from(hs, name, i + 1)
    }
}

/// The first column whose name holds a text, from `i` on.
pub open spec fn holding_from(hs: Seq<Seq<char>>, name: Seq<char>, i: int) -> Option<int>
    decreases hs.len() - i,
{
    if i < 0 || i >= hs.len() {
        None
    } else if holds(column_name(hs[i]), name) {
        Some(i)
    } else {
        holding_from(hs, name, i + 1)
    }
}

/// The column with the first of some names, from the `i`-th on.
pub open spec fn named_among(hs: Seq<Seq<char>>, cs: Seq<Seq<char>>, i: int) -> Option<int>
    decreases cs.len() - i,
{
    if i < 0 || i >= cs.len() {
        None
    } else {
        match named_from(hs, column_name(cs[i]), 0) {
            Some(p) => Some(p),
            None => named_among(hs, cs, i + 1),
        }
    }
}

pub open spec fn holding_among(hs: Seq<Seq<char>>, cs: Seq<Seq<char>>, i: int) -> Option<int>
    decreases cs.len() - i,
{
    if i < 0 || i >= cs.len() {
        None
    } else {
        match holding_from(hs, column_name(cs[i]), 0) {
            Some(p) => Some(p),
            None => holding_among(hs, cs, i + 1),
        }
    }
}

/// The column for some names: by its exact name first, then by a part of it.
pub open spec fn column_of(hs: Seq<Seq<char>>, cs: Seq<Seq<char>>) -> Option<int> {
    match named_among(hs, cs, 0) {
        Some(p) => Some(p),
        None => holding_among(hs, cs, 0),
    }
}

/// A place as a number without bounds.
pub open spec fn place_as_int(p: Option<usize>) -> Option<int> {
    match p {
        Some(n) => Some(n as int),
        None => None,
    }
}

/// Finds a column by its exact name (case-insensitive, trimmed).
pub fn exact_col(headers: &[String], name: &str) -> (r: Option<usize>)
    ensures
        place_as_int(r) == named_from(texts(headers@), column_name(name@), 0),
        r is Some ==> r->0 < headers@.len(),
{
    let n = to_lowercase(trim(name).as_str());
    let mut i: usize = 0;
    while i < headers.len()
        invariant
            i <= headers.len(),
            n@ == column_name(name@),
            named_from(texts(headers@), n@, 0) == named_from(texts(headers@), n@, i as int),
        decreases headers.len() - i,
    {
        let h = to_lowercase(trim(headers[i].as_str()).as_str());
        if same(h.as_str(), n.as_str()) {
            return Some(i);
        }
        i = i + 1;
    }
    None
}

fn holding_col(headers: &[String], name: &str) -> (r: Option<usize>)
    ensures
        place_as_int(r) == holding_from(texts(headers@), column_name(name@), 0),
        r is Some ==> r->0 < headers@.len(),
{
    let n = to_lowercase(trim(name).as_str());
    let mut i: usize = 0;
    while i < headers.len()
        invariant
            i <= headers.len(),
            n@ == column_name(name@),
            holding_from(texts(headers@), n@, 0) == holding_from(texts(headers@), n@, i as int),
        decreases headers.len() - i,
    {
        let h = to_lowercase(trim(headers[i].as_str()).as_str());
        if contains(h.as_str(), n.as_str()) {
            return Some(i);
        }
        i = i + 1;
    }
    None
}

/// Finds a column by candidate names: exact (case-insensitive) first, then contains.
pub fn find_col(headers: &[String], candidates: &[&str]) -> (r: Option<usize>)
    ensures
        place_as_int(r) == column_of(texts(headers@), str_texts(candidates@)),
        r is Some ==> r->0 < headers@.len(),
{
    let ghost hs = texts(headers@);
    let ghost cs = str_texts(candidates@);
    let mut i: usize = 0;
    while i < candidates.len()
        invariant
            i <= candidates.len(),
            hs == texts(headers@),
            cs == str_texts(candidates@),
            named_among(hs, cs, 0) == named_among(hs, cs, i as int),
        decreases candidates.len() - i,
    {
        if let Some(p) = exact_col(headers, candidates[i]) {
            return Some(p);
        }
        i = i + 1;
    }
    let mut j: usize = 0;
    while j < candidates.len()
        invariant
            j <= candidates.len(),
            hs == texts(headers@),
            cs == str_texts(candidates@),
            named_among(hs, cs, 0) is None,
            holding_among(hs, cs, 0) == holding_among(hs, cs, j as int),
        decreases candidates.len() - j,
    {
        if let Some(p) = holding_col(headers, candidates[j]) {
            return Some(p);
        }
        j = j + 1;
    }
    None
}

/// The column that a mapping names: by its number, counted from one, or by its name.
pub open spec fn column_by(hs: Seq<Seq<char>>, name: Seq<char>) -> Option<int> {
    if blank(name) {
        None
    } else {
        match int_in(trimmed(name)) {
            Some(n) => if 1 <= n <= hs.len() {
                Some(n - 1)
            } else {
                column_of(hs, seq![name])
            },
            None => column_of(hs, seq![name]),
        }
    }
}

pub fn col_by_name(headers: &[String], name: &str) -> (r: Option<usize>)
    ensures
        place_as_int(r) == column_by(texts(headers@), name@),
        r is Some ==> r->0 < headers@.len(),
{
    if is_blank(name) {
        return None;
    }
    if let Some(n) = parse_int(trim(name).as_str()) {
        if n >= 1 && n as u128 <= headers.len() as u128 {
            return Some((n - 1) as usize);
        }
    }
    let names: [&str; 1] = [name];
    assert(str_texts(names@) =~= seq![name@]);
    find_col(headers, &names)
}

/// The first place, from `i` on, that holds one of two characters, or the end.
pub open spec fn stop(s: Seq<char>, a: char, b: char, i: int) -> int
    decreases s.len() - i,
{
    if i < 0 || i >= s.len() || s[i] == a || s[i] == b {
        i
    } else {
        stop(s, a, b, i + 1)
    }
}

/// What stands before the first of two characters.
pub open spec fn up_to(s: Seq<char>, a: char, b: char) -> Seq<char> {
    s.take(stop(s, a, b, 0))
}

fn take_up_to(s: &[char], a: char, b: char) -> (r: Vec<char>)
    ensures
        r@ == up_to(s@, a, b),
        r@.len() <= s@.len(),
        r@.len() < s@.len() <==> (exists|k: int| 0 <= k < s@.len() && (#[trigger] s@[k] == a || s@[k] == b)),
{
    let mut i: usize = 0;
    while i < s.len() && s[i] != a && s[i] != b
        invariant
            i <= s.len(),
            stop(s@, a, b, 0) == stop(s@, a, b, i as int),
            forall|k: int| 0 <= k < i ==> #[trigger] s@[k] != a && s@[k] != b,
        decreases s.len() - i,
    {
        i = i + 1;
    }
    let r = slice_chars(s, 0, i);
    assert(r@ =~= up_to(s@, a, b));
    r
}

/// How many bytes a text takes in UTF-8.
pub open spec fn bytes_of(s: Seq<char>) -> nat {
    byte_length(s, s.len())
}

/// Whether a text takes exactly `n` bytes, for a few bytes.
fn takes_bytes(s: &[char], n: usize) -> (r: bool)
    requires
        n <= 100,
    ensures
        r == (bytes_of(s@) == n),
{
    let mut total: usize = 0;
    let mut i: usize = 0;
    while i < s.len()
        invariant
            i <= s.len(),
            n <= 100,
            total == byte_length(s@, i as nat),
            total <= 104,
        decreases s.len() - i,
    {
        total = total + width_of(s[i]);
        i = i + 1;
        if total > 100 {
            proof {
                lemma_bytes_grow(s@, i as nat, s@.len());
            }
            return false;
        }
    }
    total == n
}

proof fn lemma_bytes_grow(s: Seq<char>, n: nat, m: nat)
    requires
        n <= m,
    ensures
        byte_length(s, n) <= byte_length(s, m),
    decreases m,
{
    if n < m {
        lemma_bytes_grow(s, n, (m - 1) as nat);
    }
}

/// What dates in a column have shown of their format.
pub struct DateSigns {
    pub first_is_day: bool,
    pub second_is_day: bool,
    pub separator: char,
    pub year_first: bool,
    pub with_time: bool,
    pub short_year: bool,
}

/// One separator for all.
pub open spec fn slashed(s: Seq<char>) -> Seq<char> {
    s.map_values(
        |c: char|
            if c == '-' || c == '.' {
                '/'
            } else {
                c
            },
    )
}

/// Whether a number cannot be a month.
pub open spec fn over_twelve(s: Seq<char>) -> bool {
    int_in(s) is Some && 12 < int_in(s)->0 <= u32::MAX
}

/// The signs with those of one more date.
pub open spec fn signs_with(f: DateSigns, v: Seq<char>) -> DateSigns {
    let core = up_to(v, ' ', 'T');
    let ps = parts(slashed(core), '/');
    let timed = DateSigns { with_time: f.with_time || v.len() > core.len(), ..f };
    if ps.len() != 3 {
        timed
    } else {
        let separated = DateSigns {
            separator: if core.contains('-') {
                '-'
            } else if core.contains('.') {
                '.'
            } else {
                f.separator
            },
            ..timed
        };
        if bytes_of(ps[0]) == 4 {
            DateSigns { year_first: true, ..separated }
        } else {
            DateSigns {
                short_year: f.short_year || bytes_of(ps[2]) == 2,
                first_is_day: f.first_is_day || over_twelve(ps[0]),
                second_is_day: f.second_is_day || over_twelve(ps[1]),
                ..separated
            }
        }
    }
}

/// How many of the first `n` values are not blank.
pub open spec fn given(vs: Seq<Seq<char>>, n: nat) -> nat {
    filled_up_to(vs, n)
}

/// The signs of the first two hundred values that are not blank, among the first `n`.
pub open spec fn signs_in(vs: Seq<Seq<char>>, n: nat) -> DateSigns
    decreases n,
{
    if n == 0 {
        DateSigns { first_is_day: false, second_is_day: false, separator: '/', year_first: false, with_time: false, short_year: false }
    } else {
        let f = signs_in(vs, (n - 1) as nat);
        if blank(vs[n - 1]) || given(vs, (n - 1) as nat) >= 200 {
            f
        } else {
            signs_with(f, trimmed(vs[n - 1]))
        }
    }
}

/// The format of dates with some signs.
pub open spec fn format_of(f: DateSigns) -> Seq<char> {
    let year = if f.short_year {
        "%y"@
    } else {
        "%Y"@
    };
    let sep = seq![f.separator];
    let base = if f.year_first {
        "%Y"@ + sep + "%m"@ + sep + "%d"@
    } else if f.second_is_day && !f.first_is_day {
        "%m"@ + sep + "%d"@ + sep + year
    } else {
        "%d"@ + sep + "%m"@ + sep + year
    };
    if f.with_time {
        base + " %H:%M"@
    } else {
        base
    }
}

fn is_over_twelve(s: &[char]) -> (r: bool)
    ensures
        r == over_twelve(s@),
{
    match parse_int(string(s).as_str()) {
        Some(n) => 12 < n && n <= 4294967295,
        None => false,
    }
}

fn holds_char(s: &[char], c: char) -> (r: bool)
    ensures
        r == s@.contains(c),
{
    let mut i: usize = 0;
    while i < s.len()
        invariant
            i <= s.len(),
            forall|k: int| 0 <= k < i ==> #[trigger] s@[k] != c,
        decreases s.len() - i,
    {
        if s[i] == c {
            assert(s@[i as int] == c);
            return true;
        }
        i = i + 1;
    }
    false
}

fn with_slashes(s: &[char]) -> (r: Vec<char>)
    ensures
        r@ == slashed(s@),
{
    let mut r: Vec<char> = Vec::new();
    let mut i: usize = 0;
    while i < s.len()
        invariant
            i <= s.len(),
            r@ == slashed(s@).take(i as int),
        decreases s.len() - i,
    {
        let c = s[i];
        r.push(
            if c == '-' || c == '.' {
                '/'
            } else {
                c
            },
        );
        i = i + 1;
        assert(r@ =~= slashed(s@).take(i as int));
    }
    assert(r@ =~= slashed(s@));
    r
}

fn note_signs(f: DateSigns, v: &[char]) -> (r: DateSigns)
    ensures
        r == signs_with(f, v@),
{
    let core = take_up_to(v, ' ', 'T');
    let ps = split(&with_slashes(&core), '/');
    let ghost shown = parts(slashed(core@), '/');
    assert(char_texts(ps@) == shown);
    let mut r = f;
    if v.len() > core.len() {
        r.with_time = true;
    }
    if ps.len() != 3 {
        return r;
    }
    assert(ps@[0]@ == shown[0] && ps@[1]@ == shown[1] && ps@[2]@ == shown[2]);
    if holds_char(&core, '-') {
        r.separator = '-';
    } else if holds_char(&core, '.') {
        r.separator = '.';
    }
    if takes_bytes(&ps[0], 4) {
        r.year_first = true;
        return r;
    }
    if takes_bytes(&ps[2], 2) {
        r.short_year = true;
    }
    if is_over_twelve(&ps[0]) {
        r.first_is_day = true;
    }
    if is_over_twelve(&ps[1]) {
        r.second_is_day = true;
    }
    r
}

/// Detects a date format from sample values. Returns a strftime pattern.
pub fn detect_date_format(values: &[&str]) -> (r: String)
    ensures
        r@ == format_of(signs_in(str_texts(values@), values@.len())),
{
    let ghost vs = str_texts(values@);
    let mut f = DateSigns { first_is_day: false, second_is_day: false, separator: '/', year_first: false, with_time: false, short_year: false };
    let mut n: usize = 0;
    let mut i: usize = 0;
    while i < values.len()
        invariant
            i <= values.len(),
            vs == str_texts(values@),
            f == signs_in(vs, i as nat),
            n == given(vs, i as nat),
            n <= i,
        decreases values.len() - i,
    {
        assert(vs[i as int] == values@[i as int]@);
        if !is_blank(values[i]) {
            if n < 200 {
                let v = trim_chars(&chars(values[i]));
                f = note_signs(f, &v);
            }
            n = n + 1;
        }
        i = i + 1;
    }
    let year: &str = if f.short_year {
        "%y"
    } else {
        "%Y"
    };
    let mut s: String = String::new();
    s.push(f.separator);
    assert(s@ =~= seq![f.separator]);
    let base = if f.year_first {
        cat5("%Y", s.as_str(), "%m", s.as_str(), "%d")
    } else if f.second_is_day && !f.first_is_day {
        cat5("%m", s.as_str(), "%d", s.as_str(), year)
    } else {
        cat5("%d", s.as_str(), "%m", s.as_str(), year)
    };
    if f.with_time {
        cat(base.as_str(), " %H:%M")
    } else {
        base
    }
}

/// The first place, from `k` on, at which at least ten bytes stand before it.
pub open spec fn ten_bytes(s: Seq<char>, k: int) -> int
    decreases s.len() - k,
{
    if k < 0 || k >= s.len() || byte_length(s, k as nat) >= 10 {
        k
    } else {
        ten_bytes(s, k + 1)
    }
}

/// A date of ten bytes without what follows it after a space.
pub open spec fn without_time(s: Seq<char>) -> Seq<char> {
    let k = ten_bytes(s, 0);
    if k < s.len() && byte_length(s, k as nat) == 10 && s[k] == ' ' {
        s.take(k)
    } else {
        s
    }
}

/// The part of a value in which a date is searched.
pub open spec fn date_core(v: Seq<char>, format: Seq<char>) -> Seq<char> {
    if holds(format, "%H"@) {
        v
    } else {
        without_time(trimmed(up_to(v, 'T', 'T')))
    }
}

/// A format with another separator.
pub open spec fn with_separator(format: Seq<char>, sep: char) -> Seq<char> {
    format.map_values(
        |c: char|
            if c == '-' || c == '/' || c == '.' {
                sep
            } else {
                c
            },
    )
}

/// What one format reads in a value.
pub open spec fn read_by(core: Seq<char>, f: Seq<char>) -> Option<Date> {
    match date_in(core, f) {
        Some(d) => Some(d),
        None => if holds(f, "%H"@) {
            match moment_in(core, f) {
                Some(d) => Some(d),
                None => date_in(up_to(core, ' ', ' '), up_to(f, ' ', ' ')),
            }
        } else {
            None
        },
    }
}

pub open spec fn or_else(a: Option<Date>, b: Option<Date>) -> Option<Date> {
    match a {
        Some(d) => Some(d),
        None => b,
    }
}

/// The date that a value holds: by its format, then by the same field order with another separator
/// (a bank that writes 02-04-2022 one year and 02/04/2022 the next must not flip its months and
/// days), then by common formats.
pub open spec fn date_read(v: Seq<char>, format: Seq<char>) -> Option<Date> {
    let core = date_core(v, format);
    let part = up_to(core, ' ', ' ');
    or_else(
        read_by(core, format),
        or_else(
            read_by(core, with_separator(format, '-')),
            or_else(
                read_by(core, with_separator(format, '/')),
                or_else(
                    read_by(core, with_separator(format, '.')),
                    or_else(
                        date_in(part, "%Y-%m-%d"@),
                        or_else(
                            date_in(part, "%d/%m/%Y"@),
                            or_else(
                                date_in(part, "%d.%m.%Y"@),
                                or_else(
                                    date_in(part, "%d-%m-%Y"@),
                                    or_else(
                                        date_in(part, "%Y/%m/%d"@),
                                        or_else(
                                            date_in(part, "%m/%d/%Y"@),
                                            or_else(date_in(part, "%d/%m/%y"@), date_in(part, "%Y%m%d"@)),
                                        ),
                                    ),
                                ),
                            ),
                        ),
                    ),
                ),
            ),
        ),
    )
}

fn read_format(core: &str, part: &str, f: &str) -> (r: Option<Date>)
    requires
        part@ == up_to(core@, ' ', ' '),
    ensures
        r == read_by(core@, f@),
        r is Some ==> r->0.inv(),
{
    if let Some(d) = parse_with(core, f) {
        return Some(d);
    }
    if contains(f, "%H") {
        if let Some(d) = parse_moment(core, f) {
            return Some(d);
        }
        let date_only = string(&take_up_to(&chars(f), ' ', ' '));
        return parse_with(part, date_only.as_str());
    }
    None
}

fn separate_with(format: &str, sep: char) -> (r: String)
    ensures
        r@ == with_separator(format@, sep),
{
    let cs = chars(format);
    let mut r: String = String::new();
    let mut i: usize = 0;
    while i < cs.len()
        invariant
            i <= cs.len(),
            cs@ == format@,
            r@ == with_separator(format@, sep).take(i as int),
        decreases cs.len() - i,
    {
        let c = cs[i];
        r.push(
            if c == '-' || c == '/' || c == '.' {
                sep
            } else {
                c
            },
        );
        i = i + 1;
        assert(r@ =~= with_separator(format@, sep).take(i as int));
    }
    assert(r@ =~= with_separator(format@, sep));
    r
}

fn drop_time(s: Vec<char>) -> (r: Vec<char>)
    ensures
        r@ == without_time(s@),
{
    let mut bytes: usize = 0;
    let mut k: usize = 0;
    while k < s.len() && bytes < 10
        invariant
            k <= s.len(),
            bytes == byte_length(s@, k as nat),
            bytes <= 14,
            ten_bytes(s@, 0) == ten_bytes(s@, k as int),
        decreases s.len() - k,
    {
        bytes = bytes + width_of(s[k]);
        k = k + 1;
    }
    if k < s.len() && bytes == 10 && s[k] == ' ' {
        let r = slice_chars(&s, 0, k);
        assert(r@ =~= s@.take(k as int));
        return r;
    }
    s
}

/// Parses a date with a format, tolerating trailing time and a few common alternatives.
pub fn parse_date(value: &str, format: &str) -> (r: Result<Date>)
    ensures
        match r {
            Ok(d) => !blank(value@) && date_read(trimmed(value@), format@) == Some(d) && d.inv(),
            Err(e) => if blank(value@) {
                e.unreadable("empty date"@)
            } else {
                date_read(trimmed(value@), format@) is None && e.unreadable(
                    "unrecognised date "@ + debug_text(value@) + " (format "@ + format@ + ")"@,
                )
            },
        },
{
    if is_blank(value) {
        return Err(unreadable("empty date"));
    }
    let v = trim_chars(&chars(value));
    let cs: Vec<char> = if contains(format, "%H") {
        v
    } else {
        drop_time(trim_chars(&take_up_to(&v, 'T', 'T')))
    };
    let core = string(&cs);
    let part_chars = take_up_to(&cs, ' ', ' ');
    let part = string(&part_chars);
    if let Some(d) = read_format(core.as_str(), part.as_str(), format) {
        return Ok(d);
    }
    let dashed = separate_with(format, '-');
    if let Some(d) = read_format(core.as_str(), part.as_str(), dashed.as_str()) {
        return Ok(d);
    }
    let slashed_format = separate_with(format, '/');
    if let Some(d) = read_format(core.as_str(), part.as_str(), slashed_format.as_str()) {
        return Ok(d);
    }
    let dotted = separate_with(format, '.');
    if let Some(d) = read_format(core.as_str(), part.as_str(), dotted.as_str()) {
        return Ok(d);
    }
    if let Some(d) = parse_with(part.as_str(), "%Y-%m-%d") {
        return Ok(d);
    }
    if let Some(d) = parse_with(part.as_str(), "%d/%m/%Y") {
        return Ok(d);
    }
    if let Some(d) = parse_with(part.as_str(), "%d.%m.%Y") {
        return Ok(d);
    }
    if let Some(d) = parse_with(part.as_str(), "%d-%m-%Y") {
        return Ok(d);
    }
    if let Some(d) = parse_with(part.as_str(), "%Y/%m/%d") {
        return Ok(d);
    }
    if let Some(d) = parse_with(part.as_str(), "%m/%d/%Y") {
        return Ok(d);
    }
    if let Some(d) = parse_with(part.as_str(), "%d/%m/%y") {
        return Ok(d);
    }
    if let Some(d) = parse_with(part.as_str(), "%Y%m%d") {
        return Ok(d);
    }
    let m = cat5("unrecognised date ", quoted(value).as_str(), " (format ", format, ")");
    Err(unreadable(m.as_str()))
}

/// The decimal separator that one number seems to be written with.
pub open spec fn separator_in(s: Seq<char>) -> char {
    likely_decimal_sep(s, (vstd::utf8::encode_utf8(s).len() as usize) as int)
}

/// How many of the first two hundred values that are not blank, among the first `n`, seem to be
/// written with a decimal comma, and how many are not.
pub open spec fn separators_in(vs: Seq<Seq<char>>, n: nat) -> (nat, nat)
    decreases n,
{
    if n == 0 {
        (0, 0)
    } else {
        let (comma, dot) = separators_in(vs, (n - 1) as nat);
        if blank(vs[n - 1]) || given(vs, (n - 1) as nat) >= 200 {
            (comma, dot)
        } else if separator_in(vs[n - 1]) == ',' {
            (comma + 1, dot)
        } else {
            (comma, dot + 1)
        }
    }
}

pub open spec fn column_separator(vs: Seq<Seq<char>>) -> char {
    let (comma, dot) = separators_in(vs, vs.len());
    if comma > dot {
        ','
    } else {
        '.'
    }
}

/// Detects the decimal separator used in a column of numbers.
pub fn detect_decimal_sep(values: &[&str]) -> (r: char)
    ensures
        r == column_separator(str_texts(values@)),
{
    let ghost vs = str_texts(values@);
    let mut comma: usize = 0;
    let mut dot: usize = 0;
    let mut n: usize = 0;
    let mut i: usize = 0;
    while i < values.len()
        invariant
            i <= values.len(),
            vs == str_texts(values@),
            (comma as nat, dot as nat) == separators_in(vs, i as nat),
            n == given(vs, i as nat),
            n <= i,
            comma <= i,
            dot <= i,
        decreases values.len() - i,
    {
        assert(vs[i as int] == values@[i as int]@);
        if !is_blank(values[i]) {
            if n < 200 {
                if guess_decimal_sep(values[i]) == ',' {
                    comma = comma + 1;
                } else {
                    dot = dot + 1;
                }
            }
            n = n + 1;
        }
        i = i + 1;
    }
    if comma > dot {
        ','
    } else {
        '.'
    }
}

/// The number in a cell, which may be empty.
pub open spec fn number_read(value: Seq<char>, decimal_sep: char) -> std::result::Result<Option<Num>, Refusal> {
    if blank(value) {
        Ok(None)
    } else {
        match localized(value, decimal_sep) {
            Some(n) => Ok(Some(n)),
            None => Err(Refusal::Parse("not a number: "@ + debug_text(value))),
        }
    }
}

pub fn parse_number(value: &str, decimal_sep: char) -> (r: Result<Option<Decimal>>)
    ensures
        match r {
            Ok(d) => number_read(value@, decimal_sep) == Ok::<Option<Num>, Refusal>(view_of(d)),
            Err(e) => number_read(value@, decimal_sep) == Err::<Option<Num>, Refusal>(e@),
        },
{
    if is_blank(value) {
        return Ok(None);
    }
    match parse_localized(value, decimal_sep) {
        Ok(d) => Ok(Some(d)),
        Err(e) => Err(e),
    }
}

} // verus!
